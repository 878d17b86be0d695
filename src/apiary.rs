//! The facility hierarchy: each apiary maps its gateways to the bridges they
//! serve.

use crate::shared::{contains_text, texts};
use vstd::prelude::*;

verus! {

/// A gateway as plain values: its id and its bridges' ids, in order.
pub type GatewayView = (Seq<char>, Seq<Seq<char>>);

/// An apiary as plain values: its name and its gateways, in insertion order.
pub struct ApiaryView {
    pub name: Seq<char>,
    pub gateways: Seq<GatewayView>,
}

/// A gateway id occurs at index `i`.
pub open spec fn gateway_at(gateways: Seq<GatewayView>, i: int, id: Seq<char>) -> bool {
    0 <= i < gateways.len() && gateways[i].0 == id
}

/// Some gateway has this id.
pub open spec fn lists_gateway(gateways: Seq<GatewayView>, id: Seq<char>) -> bool {
    exists|i: int| gateway_at(gateways, i, id)
}

/// Some gateway serves this bridge.
pub open spec fn lists_bridge(gateways: Seq<GatewayView>, bridge: Seq<char>) -> bool {
    exists|i: int| 0 <= i < gateways.len() && (#[trigger] gateways[i]).1.contains(bridge)
}

/// The bridges of all gateways, gateway by gateway, each list in its order.
pub open spec fn bridges_of(gateways: Seq<GatewayView>) -> Seq<Seq<char>>
    decreases gateways.len(),
{
    if gateways.len() == 0 {
        Seq::empty()
    } else {
        bridges_of(gateways.drop_last()) + gateways.last().1
    }
}

/// No two gateways share an id.
pub open spec fn ids_unique(gateways: Seq<GatewayView>) -> bool {
    forall|i: int, j: int|
        0 <= i < gateways.len() && 0 <= j < gateways.len() && i != j ==> (#[trigger] gateways[i]).0
            != (#[trigger] gateways[j]).0
}

/// A gateway of an apiary and the bridges it serves.
pub struct Gateway {
    pub id: String,
    pub bridges: Vec<String>,
}

impl View for Gateway {
    type V = GatewayView;

    open spec fn view(&self) -> GatewayView {
        (self.id@, texts(self.bridges@))
    }
}

/// An apiary: a named facility whose gateways each serve a list of bridges.
/// Gateway ids are unique within it.
pub struct Apiary {
    name: String,
    gateways: Vec<Gateway>,
}

impl View for Apiary {
    type V = ApiaryView;

    closed spec fn view(&self) -> ApiaryView {
        ApiaryView { name: self.name@, gateways: self.gateways@.map_values(|g: Gateway| g@) }
    }
}

impl Apiary {
    #[verifier::type_invariant]
    spec fn inv(self) -> bool {
        ids_unique(self.gateways@.map_values(|g: Gateway| g@))
    }

    /// An apiary with no gateways.
    pub fn new(name: String) -> (r: Apiary)
        ensures
            r@.name == name@,
            r@.gateways == Seq::<GatewayView>::empty(),
    {
        let r = Apiary { name, gateways: Vec::new() };
        assert(r.gateways@.map_values(|g: Gateway| g@) =~= Seq::<GatewayView>::empty());
        r
    }

    /// The apiary's name.
    pub fn name(&self) -> (r: &String)
        ensures
            r@ == self@.name,
    {
        &self.name
    }

    /// Sets the bridges of a gateway: a known id keeps its place and takes the
    /// new list; a new id comes last.
    pub fn insert_gateway(&mut self, id: String, bridges: Vec<String>)
        ensures
            final(self)@.name == old(self)@.name,
            forall|i: int|
                gateway_at(old(self)@.gateways, i, id@) ==> final(self)@.gateways == old(
                    self,
                )@.gateways.update(i, (id@, texts(bridges@))),
            !lists_gateway(old(self)@.gateways, id@) ==> final(self)@.gateways == old(
                self,
            )@.gateways.push((id@, texts(bridges@))),
    {
        proof {
            use_type_invariant(&*self);
        }
        let mut gateways: Vec<Gateway> = Vec::new();
        std::mem::swap(&mut gateways, &mut self.gateways);
        let ghost old_views = gateways@.map_values(|g: Gateway| g@);
        let mut i: usize = 0;
        while i < gateways.len()
            invariant
                i <= gateways@.len(),
                old_views == gateways@.map_values(|g: Gateway| g@),
                ids_unique(old_views),
                forall|j: int| 0 <= j < i ==> old_views[j].0 != id@,
                self.name == old(self).name,
                old_views == old(self)@.gateways,
            decreases gateways.len() - i,
        {
            if gateways[i].id == id {
                let g = Gateway { id, bridges };
                gateways.set(i, g);
                let ghost new_views = old_views.update(i as int, g@);
                assert(gateways@.map_values(|g: Gateway| g@) =~= new_views);
                assert forall|k: int| 0 <= k < new_views.len() implies #[trigger] new_views[k].0
                    == old_views[k].0 by {}
                assert(ids_unique(new_views));
                assert(gateway_at(old_views, i as int, id@));
                assert forall|k: int| gateway_at(old_views, k, id@) implies k == i by {
                    assert(old_views[k].0 == old_views[i as int].0);
                }
                self.gateways = gateways;
                return;
            }
            i = i + 1;
        }
        let g = Gateway { id, bridges };
        gateways.push(g);
        let ghost new_views = old_views.push(g@);
        assert(gateways@.map_values(|g: Gateway| g@) =~= new_views);
        assert forall|a: int, b: int|
            0 <= a < new_views.len() && 0 <= b < new_views.len() && a != b implies (
            #[trigger] new_views[a]).0 != (#[trigger] new_views[b]).0 by {
            if a < old_views.len() && b < old_views.len() {
                assert(new_views[a] == old_views[a] && new_views[b] == old_views[b]);
            }
        }
        self.gateways = gateways;
    }

    /// Whether a gateway with this id belongs to the apiary.
    pub fn has_gateway(&self, id: String) -> (r: bool)
        ensures
            r == lists_gateway(self@.gateways, id@),
    {
        let mut i: usize = 0;
        while i < self.gateways.len()
            invariant
                i <= self.gateways@.len(),
                forall|j: int| 0 <= j < i ==> self.gateways@[j].id@ != id@,
            decreases self.gateways.len() - i,
        {
            if self.gateways[i].id == id {
                assert(gateway_at(self@.gateways, i as int, id@));
                return true;
            }
            i = i + 1;
        }
        false
    }

    /// The bridges of all gateways, gateway by gateway.
    pub fn get_bridges(&self) -> (r: Vec<String>)
        ensures
            texts(r@) == bridges_of(self@.gateways),
    {
        let ghost views = self@.gateways;
        let mut collected: Vec<String> = Vec::new();
        let mut i: usize = 0;
        while i < self.gateways.len()
            invariant
                i <= self.gateways@.len(),
                views == self.gateways@.map_values(|g: Gateway| g@),
                texts(collected@) == bridges_of(views.take(i as int)),
            decreases self.gateways.len() - i,
        {
            let bridges = &self.gateways[i].bridges;
            let ghost before = texts(collected@);
            let mut k: usize = 0;
            while k < bridges.len()
                invariant
                    k <= bridges@.len(),
                    texts(collected@) == before + texts(bridges@).take(k as int),
                decreases bridges.len() - k,
            {
                let ghost prev = collected@;
                collected.push(bridges[k].clone());
                assert(texts(collected@) =~= texts(prev).push(bridges@[k as int]@));
                assert(texts(bridges@).take(k + 1) =~= texts(bridges@).take(k as int).push(
                    bridges@[k as int]@,
                ));
                k = k + 1;
            }
            assert(views.take(i + 1).drop_last() =~= views.take(i as int));
            assert(texts(bridges@).take(k as int) =~= texts(bridges@));
            i = i + 1;
        }
        assert(views.take(i as int) =~= views);
        collected
    }

    /// Whether any gateway of the apiary serves this bridge.
    pub fn has_bridge(&self, bridge_id: String) -> (r: bool)
        ensures
            r == lists_bridge(self@.gateways, bridge_id@),
    {
        let mut i: usize = 0;
        while i < self.gateways.len()
            invariant
                i <= self.gateways@.len(),
                forall|j: int|
                    0 <= j < i ==> !texts(#[trigger] self.gateways@[j].bridges@).contains(
                        bridge_id@,
                    ),
            decreases self.gateways.len() - i,
        {
            if contains_text(&self.gateways[i].bridges, &bridge_id) {
                assert(self@.gateways[i as int].1.contains(bridge_id@));
                return true;
            }
            i = i + 1;
        }
        proof {
            if lists_bridge(self@.gateways, bridge_id@) {
                let j = choose|j: int|
                    0 <= j < self@.gateways.len() && (#[trigger] self@.gateways[j]).1.contains(
                        bridge_id@,
                    );
                assert(self@.gateways[j].1 == texts(self.gateways@[j].bridges@));
            }
        }
        false
    }
}

/// The apiary at index `i` has this name.
pub open spec fn apiary_at(apiaries: Seq<ApiaryView>, i: int, name: Seq<char>) -> bool {
    0 <= i < apiaries.len() && apiaries[i].name == name
}

/// No two apiaries share a name.
pub open spec fn names_unique(apiaries: Seq<ApiaryView>) -> bool {
    forall|i: int, j: int|
        0 <= i < apiaries.len() && 0 <= j < apiaries.len() && i != j ==> (#[trigger] apiaries[i]).name
            != (#[trigger] apiaries[j]).name
}

/// The authorization hierarchy: apiaries by name, each with its gateways and
/// their bridges. Read-only once loaded.
pub struct Hierarchy {
    apiaries: Vec<Apiary>,
}

impl View for Hierarchy {
    type V = Seq<ApiaryView>;

    closed spec fn view(&self) -> Seq<ApiaryView> {
        self.apiaries@.map_values(|a: Apiary| a@)
    }
}

impl Hierarchy {
    #[verifier::type_invariant]
    spec fn inv(self) -> bool {
        names_unique(self.apiaries@.map_values(|a: Apiary| a@))
    }

    /// A hierarchy without apiaries.
    pub fn new() -> (r: Hierarchy)
        ensures
            r@ == Seq::<ApiaryView>::empty(),
    {
        let r = Hierarchy { apiaries: Vec::new() };
        assert(r.apiaries@.map_values(|a: Apiary| a@) =~= Seq::<ApiaryView>::empty());
        r
    }

    /// Adds an apiary; one of the same name is replaced in its place.
    pub fn insert(&mut self, apiary: Apiary)
        ensures
            forall|i: int|
                apiary_at(old(self)@, i, apiary@.name) ==> final(self)@ == old(self)@.update(
                    i,
                    apiary@,
                ),
            (forall|i: int| !apiary_at(old(self)@, i, apiary@.name)) ==> final(self)@ == old(
                self,
            )@.push(apiary@),
    {
        proof {
            use_type_invariant(&*self);
        }
        let mut apiaries: Vec<Apiary> = Vec::new();
        std::mem::swap(&mut apiaries, &mut self.apiaries);
        let ghost old_views = apiaries@.map_values(|a: Apiary| a@);
        let mut i: usize = 0;
        while i < apiaries.len()
            invariant
                i <= apiaries@.len(),
                old_views == apiaries@.map_values(|a: Apiary| a@),
                old_views == old(self)@,
                names_unique(old_views),
                forall|j: int| 0 <= j < i ==> old_views[j].name != apiary@.name,
            decreases apiaries.len() - i,
        {
            if *apiaries[i].name() == *apiary.name() {
                let ghost a = apiary@;
                apiaries.set(i, apiary);
                let ghost new_views = old_views.update(i as int, a);
                assert(apiaries@.map_values(|a: Apiary| a@) =~= new_views);
                assert forall|k: int| 0 <= k < new_views.len() implies #[trigger] new_views[k].name
                    == old_views[k].name by {}
                assert(names_unique(new_views));
                assert(apiary_at(old_views, i as int, a.name));
                assert forall|k: int| apiary_at(old_views, k, a.name) implies k == i by {
                    assert(old_views[k].name == old_views[i as int].name);
                }
                self.apiaries = apiaries;
                return;
            }
            i = i + 1;
        }
        let ghost a = apiary@;
        apiaries.push(apiary);
        let ghost new_views = old_views.push(a);
        assert(apiaries@.map_values(|a: Apiary| a@) =~= new_views);
        assert forall|x: int, y: int|
            0 <= x < new_views.len() && 0 <= y < new_views.len() && x != y implies (
            #[trigger] new_views[x]).name != (#[trigger] new_views[y]).name by {
            if x < old_views.len() && y < old_views.len() {
                assert(new_views[x] == old_views[x] && new_views[y] == old_views[y]);
            }
        }
        self.apiaries = apiaries;
    }

    /// The index of the apiary with this name.
    fn find(&self, facility: &String) -> (r: Option<usize>)
        ensures
            r matches Some(i) ==> apiary_at(self@, i as int, facility@),
            r is None ==> forall|i: int| !apiary_at(self@, i, facility@),
    {
        let mut i: usize = 0;
        while i < self.apiaries.len()
            invariant
                i <= self.apiaries@.len(),
                forall|j: int| 0 <= j < i ==> self.apiaries@[j]@.name != facility@,
            decreases self.apiaries.len() - i,
        {
            if *self.apiaries[i].name() == *facility {
                return Some(i);
            }
            i = i + 1;
        }
        None
    }

    /// Whether the named apiary has a gateway with this id; false for an
    /// unknown apiary.
    pub fn has_gateway(&self, facility: &String, gateway_id: String) -> (r: bool)
        ensures
            r == exists|i: int|
                apiary_at(self@, i, facility@) && lists_gateway(self@[i].gateways, gateway_id@),
    {
        match self.find(facility) {
            Some(i) => {
                proof {
                    use_type_invariant(self);
                    assert forall|k: int| apiary_at(self@, k, facility@) implies k == i by {
                        assert(self@[k].name == self@[i as int].name);
                    }
                }
                self.apiaries[i].has_gateway(gateway_id)
            },
            None => false,
        }
    }

    /// Whether any gateway of the named apiary serves this bridge; false for
    /// an unknown apiary.
    pub fn has_bridge(&self, facility: &String, bridge_id: String) -> (r: bool)
        ensures
            r == exists|i: int|
                apiary_at(self@, i, facility@) && lists_bridge(self@[i].gateways, bridge_id@),
    {
        match self.find(facility) {
            Some(i) => {
                proof {
                    use_type_invariant(self);
                    assert forall|k: int| apiary_at(self@, k, facility@) implies k == i by {
                        assert(self@[k].name == self@[i as int].name);
                    }
                }
                self.apiaries[i].has_bridge(bridge_id)
            },
            None => false,
        }
    }

    /// Every bridge of the named apiary, gateway by gateway; none for an
    /// unknown apiary.
    pub fn all_bridges(&self, facility: &String) -> (r: Vec<String>)
        ensures
            forall|i: int|
                apiary_at(self@, i, facility@) ==> texts(r@) == bridges_of(self@[i].gateways),
            (forall|i: int| !apiary_at(self@, i, facility@)) ==> r@.len() == 0,
    {
        match self.find(facility) {
            Some(i) => {
                proof {
                    use_type_invariant(self);
                    assert forall|k: int| apiary_at(self@, k, facility@) implies k == i by {
                        assert(self@[k].name == self@[i as int].name);
                    }
                }
                self.apiaries[i].get_bridges()
            },
            None => Vec::new(),
        }
    }
}

} // verus!
