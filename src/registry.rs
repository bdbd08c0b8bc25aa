use vstd::prelude::*;

use std::collections::HashMap;

use crate::error::ReplicaError;

verus! {

broadcast use vstd::std_specs::hash::group_hash_axioms;

/// The component kinds that carry a payload, each with the codecs of its own
/// layout.
#[derive(Debug, Clone, Copy, PartialEq, Eq, Structural)]
pub enum ComponentKind {
    ControllablePhysics,
    SimplePhysics,
    Character,
    Script,
    Destroyable,
    Skill,
    Inventory,
    PhantomPhysics,
    Fx,
    Quickbuild,
    BaseCombatAi,
    Buff,
    PlayerForcedMovement,
    Bbb,
    LevelProgression,
    PossessionControl,
}

/// How a component number from the type data is treated.
#[derive(Debug, Clone, Copy, PartialEq, Eq, Structural)]
pub enum KindClass {
    /// A known kind with a payload.
    Payload(ComponentKind),
    /// A known kind that adds no bits to a frame.
    Inert,
    /// A number outside the known set.
    Unknown,
}

/// The component number of each kind.
pub open spec fn kind_number(k: ComponentKind) -> u32 {
    match k {
        ComponentKind::ControllablePhysics => 1,
        ComponentKind::SimplePhysics => 3,
        ComponentKind::Character => 4,
        ComponentKind::Script => 5,
        ComponentKind::Destroyable => 7,
        ComponentKind::Skill => 9,
        ComponentKind::Inventory => 17,
        ComponentKind::PhantomPhysics => 40,
        ComponentKind::Fx => 44,
        ComponentKind::Quickbuild => 48,
        ComponentKind::BaseCombatAi => 60,
        ComponentKind::Buff => 98,
        ComponentKind::PlayerForcedMovement => 106,
        ComponentKind::Bbb => 107,
        ComponentKind::LevelProgression => 109,
        ComponentKind::PossessionControl => 110,
    }
}

/// The numbers of the known kinds that add no bits to a frame.
pub open spec fn is_inert_number(id: u32) -> bool {
    id == 2 || id == 31 || id == 55 || id == 56 || id == 68
}

/// The kind with component number `id`, if one has a payload.
pub open spec fn kind_of_number(id: u32) -> Option<ComponentKind> {
    match id {
        1 => Some(ComponentKind::ControllablePhysics),
        3 => Some(ComponentKind::SimplePhysics),
        4 => Some(ComponentKind::Character),
        5 => Some(ComponentKind::Script),
        7 => Some(ComponentKind::Destroyable),
        9 => Some(ComponentKind::Skill),
        17 => Some(ComponentKind::Inventory),
        40 => Some(ComponentKind::PhantomPhysics),
        44 => Some(ComponentKind::Fx),
        48 => Some(ComponentKind::Quickbuild),
        60 => Some(ComponentKind::BaseCombatAi),
        98 => Some(ComponentKind::Buff),
        106 => Some(ComponentKind::PlayerForcedMovement),
        107 => Some(ComponentKind::Bbb),
        109 => Some(ComponentKind::LevelProgression),
        110 => Some(ComponentKind::PossessionControl),
        _ => None,
    }
}

pub open spec fn classify(id: u32) -> KindClass {
    match kind_of_number(id) {
        Some(k) => KindClass::Payload(k),
        None => if is_inert_number(id) { KindClass::Inert } else { KindClass::Unknown },
    }
}

/// Each kind is found again under its own number.
pub proof fn lemma_kind_number_round_trip(k: ComponentKind)
    ensures
        kind_of_number(kind_number(k)) == Some(k),
        classify(kind_number(k)) == KindClass::Payload(k),
{
}

/// Whether the kind's updates carry a payload; the others are sent in full
/// only when the object is constructed.
pub open spec fn has_serialization(k: ComponentKind) -> bool {
    !(k == ComponentKind::Script || k == ComponentKind::Skill || k == ComponentKind::Fx
        || k == ComponentKind::Buff)
}

/// The construction codecs for a list of component numbers, in the list's
/// order, inert kinds left out; or the first number outside the known set.
pub open spec fn construction_kinds(ids: Seq<u32>) -> Result<Seq<ComponentKind>, u32>
    decreases ids.len(),
{
    if ids.len() == 0 {
        Ok(Seq::empty())
    } else {
        match construction_kinds(ids.drop_last()) {
            Err(e) => Err(e),
            Ok(ks) => match classify(ids.last()) {
                KindClass::Payload(k) => Ok(ks.push(k)),
                KindClass::Inert => Ok(ks),
                KindClass::Unknown => Err(ids.last()),
            },
        }
    }
}

/// The serialization codecs for a resolved kind list: the kinds that have
/// one, in order.
pub open spec fn serialization_kinds(ks: Seq<ComponentKind>) -> Seq<ComponentKind>
    decreases ks.len(),
{
    if ks.len() == 0 {
        Seq::empty()
    } else {
        let prev = serialization_kinds(ks.drop_last());
        if has_serialization(ks.last()) { prev.push(ks.last()) } else { prev }
    }
}

impl ComponentKind {
    pub fn number(&self) -> (r: u32)
        ensures
            r == kind_number(*self),
    {
        match self {
            ComponentKind::ControllablePhysics => 1,
            ComponentKind::SimplePhysics => 3,
            ComponentKind::Character => 4,
            ComponentKind::Script => 5,
            ComponentKind::Destroyable => 7,
            ComponentKind::Skill => 9,
            ComponentKind::Inventory => 17,
            ComponentKind::PhantomPhysics => 40,
            ComponentKind::Fx => 44,
            ComponentKind::Quickbuild => 48,
            ComponentKind::BaseCombatAi => 60,
            ComponentKind::Buff => 98,
            ComponentKind::PlayerForcedMovement => 106,
            ComponentKind::Bbb => 107,
            ComponentKind::LevelProgression => 109,
            ComponentKind::PossessionControl => 110,
        }
    }

    pub fn has_serialization(&self) -> (r: bool)
        ensures
            r == has_serialization(*self),
    {
        !matches!(self, ComponentKind::Script | ComponentKind::Skill | ComponentKind::Fx | ComponentKind::Buff)
    }
}

/// Sorts a component number from the type data into payload, inert or unknown.
pub fn classify_kind(id: u32) -> (r: KindClass)
    ensures
        r == classify(id),
{
    let k: ComponentKind = match id {
        1 => ComponentKind::ControllablePhysics,
        3 => ComponentKind::SimplePhysics,
        4 => ComponentKind::Character,
        5 => ComponentKind::Script,
        7 => ComponentKind::Destroyable,
        9 => ComponentKind::Skill,
        17 => ComponentKind::Inventory,
        40 => ComponentKind::PhantomPhysics,
        44 => ComponentKind::Fx,
        48 => ComponentKind::Quickbuild,
        60 => ComponentKind::BaseCombatAi,
        98 => ComponentKind::Buff,
        106 => ComponentKind::PlayerForcedMovement,
        107 => ComponentKind::Bbb,
        109 => ComponentKind::LevelProgression,
        110 => ComponentKind::PossessionControl,
        _ => {
            return if id == 2 || id == 31 || id == 55 || id == 56 || id == 68 {
                KindClass::Inert
            } else {
                KindClass::Unknown
            };
        },
    };
    KindClass::Payload(k)
}

/// Resolution keeps the order of the type data: the codecs of two lists one
/// after the other are those of the first list, then those of the second.
/// A list that names an unknown kind fails with the first such number.
pub proof fn lemma_construction_concat(a: Seq<u32>, b: Seq<u32>)
    ensures
        match (construction_kinds(a), construction_kinds(b)) {
            (Ok(x), Ok(y)) => construction_kinds(a + b) == Ok::<Seq<ComponentKind>, u32>(x + y),
            (Err(e), _) => construction_kinds(a + b) == Err::<Seq<ComponentKind>, u32>(e),
            (Ok(_), Err(e)) => construction_kinds(a + b) == Err::<Seq<ComponentKind>, u32>(e),
        },
    decreases b.len(),
{
    if b.len() == 0 {
        assert(a + b =~= a);
        if let Ok(x) = construction_kinds(a) {
            assert(x + Seq::<ComponentKind>::empty() =~= x);
        }
    } else {
        assert((a + b).drop_last() =~= a + b.drop_last());
        assert((a + b).last() == b.last());
        lemma_construction_concat(a, b.drop_last());
        if let (Ok(x), Ok(y)) = (construction_kinds(a), construction_kinds(b.drop_last())) {
            assert((x + y).push(kind_of_number(b.last())->Some_0) =~= x + y.push(kind_of_number(b.last())->Some_0));
        }
    }
}

/// An inert kind adds no codec, and a kind with a payload adds its own.
pub proof fn lemma_construction_single(id: u32)
    ensures
        classify(id) == KindClass::Inert ==> construction_kinds(seq![id]) == Ok::<Seq<ComponentKind>, u32>(Seq::empty()),
        classify(id) == KindClass::Unknown ==> construction_kinds(seq![id]) == Err::<Seq<ComponentKind>, u32>(id),
        forall|k: ComponentKind| classify(id) == KindClass::Payload(k)
            ==> construction_kinds(seq![id]) == Ok::<Seq<ComponentKind>, u32>(seq![k]),
{
    assert(seq![id].drop_last() =~= Seq::<u32>::empty());
    assert(seq![id].last() == id);
    assert(construction_kinds(Seq::<u32>::empty()) == Ok::<Seq<ComponentKind>, u32>(Seq::empty()));
    assert(construction_kinds(seq![id].drop_last()) == Ok::<Seq<ComponentKind>, u32>(Seq::empty()));
    assert(Seq::<ComponentKind>::empty().push(kind_of_number(id)->Some_0) =~= seq![kind_of_number(id)->Some_0]);
}

/// A list that names a kind outside the known set fails resolution.
pub proof fn lemma_unknown_kind_fatal(ids: Seq<u32>, i: int)
    requires
        0 <= i < ids.len(),
        classify(ids[i]) == KindClass::Unknown,
    ensures
        construction_kinds(ids) is Err,
{
    let a = ids.take(i);
    let b = seq![ids[i]];
    let c = ids.skip(i + 1);
    assert(ids =~= (a + b) + c);
    lemma_construction_single(ids[i]);
    lemma_construction_concat(a, b);
    lemma_construction_concat(a + b, c);
}

/// Resolves the construction codecs for a list of component numbers.
pub fn construction_codecs(ids: &Vec<u32>) -> (r: Result<Vec<ComponentKind>, ReplicaError>)
    ensures
        match construction_kinds(ids@) {
            Ok(ks) => r is Ok && r->Ok_0@ == ks,
            Err(id) => r == Err::<Vec<ComponentKind>, ReplicaError>(ReplicaError::UnknownComponentKind(id)),
        },
{
    let mut out: Vec<ComponentKind> = Vec::new();
    let mut i: usize = 0;
    assert(ids@.take(0) =~= Seq::<u32>::empty());
    while i < ids.len()
        invariant
            i <= ids@.len(),
            construction_kinds(ids@.take(i as int)) == Ok::<Seq<ComponentKind>, u32>(out@),
        decreases ids@.len() - i,
    {
        let id = ids[i];
        assert(ids@.take(i + 1).drop_last() =~= ids@.take(i as int));
        match classify_kind(id) {
            KindClass::Payload(k) => {
                out.push(k);
            },
            KindClass::Inert => {},
            KindClass::Unknown => {
                proof {
                    lemma_unknown_fatal_prefix(ids@, (i + 1) as nat);
                }
                return Err(ReplicaError::UnknownComponentKind(id));
            },
        }
        i = i + 1;
    }
    assert(ids@.take(i as int) =~= ids@);
    Ok(out)
}

/// Once a prefix of the list fails, the whole list fails with the same number.
proof fn lemma_unknown_fatal_prefix(ids: Seq<u32>, n: nat)
    requires
        n <= ids.len(),
        construction_kinds(ids.take(n as int)) is Err,
    ensures
        construction_kinds(ids) == construction_kinds(ids.take(n as int)),
    decreases ids.len() - n,
{
    if n < ids.len() {
        assert(ids.take(n + 1 as int).drop_last() =~= ids.take(n as int));
        lemma_unknown_fatal_prefix(ids, n + 1);
    } else {
        assert(ids.take(n as int) =~= ids);
    }
}

/// Resolves the serialization codecs for a resolved kind list.
pub fn serialization_codecs(ks: &Vec<ComponentKind>) -> (r: Vec<ComponentKind>)
    ensures
        r@ == serialization_kinds(ks@),
{
    let mut out: Vec<ComponentKind> = Vec::new();
    let mut i: usize = 0;
    assert(ks@.take(0) =~= Seq::<ComponentKind>::empty());
    while i < ks.len()
        invariant
            i <= ks@.len(),
            serialization_kinds(ks@.take(i as int)) == out@,
        decreases ks@.len() - i,
    {
        let k = ks[i];
        assert(ks@.take(i + 1).drop_last() =~= ks@.take(i as int));
        if k.has_serialization() {
            out.push(k);
        }
        i = i + 1;
    }
    assert(ks@.take(i as int) =~= ks@);
    out
}

/// Per network id, the construction codecs that were resolved for it.
pub struct ReplicaRegistry {
    entries: HashMap<u16, Vec<ComponentKind>>,
}

impl View for ReplicaRegistry {
    type V = Map<u16, Seq<ComponentKind>>;

    closed spec fn view(&self) -> Map<u16, Seq<ComponentKind>> {
        self.entries@.map_values(|v: Vec<ComponentKind>| v@)
    }
}

fn copy_kinds(ks: &Vec<ComponentKind>) -> (r: Vec<ComponentKind>)
    ensures
        r@ == ks@,
{
    let mut out: Vec<ComponentKind> = Vec::new();
    let mut i: usize = 0;
    while i < ks.len()
        invariant
            i <= ks@.len(),
            out@ == ks@.take(i as int),
        decreases ks@.len() - i,
    {
        out.push(ks[i]);
        assert(ks@.take(i + 1) =~= ks@.take(i as int).push(ks@[i as int]));
        i = i + 1;
    }
    assert(ks@.take(i as int) =~= ks@);
    out
}

impl ReplicaRegistry {
    pub fn new() -> (r: ReplicaRegistry)
        ensures
            r@ == Map::<u16, Seq<ComponentKind>>::empty(),
    {
        let r = ReplicaRegistry { entries: HashMap::new() };
        assert(r@ =~= Map::<u16, Seq<ComponentKind>>::empty());
        r
    }

    /// Whether a construction was resolved for `network_id`.
    pub fn is_known(&self, network_id: u16) -> (r: bool)
        ensures
            r == self@.contains_key(network_id),
    {
        self.entries.contains_key(&network_id)
    }

    /// Resolves the construction codecs of object `network_id`, whose type has
    /// the component numbers `ids`, and records them for later updates,
    /// in place of any earlier entry. A number outside the known set fails
    /// the frame and leaves the registry as it was.
    pub fn resolve_construction_codecs(&mut self, network_id: u16, ids: &Vec<u32>) -> (r: Result<Vec<ComponentKind>, ReplicaError>)
        ensures
            match construction_kinds(ids@) {
                Ok(ks) => r is Ok && r->Ok_0@ == ks && final(self)@ == old(self)@.insert(network_id, ks),
                Err(id) => r == Err::<Vec<ComponentKind>, ReplicaError>(ReplicaError::UnknownComponentKind(id))
                    && final(self)@ == old(self)@,
            },
    {
        let ks = construction_codecs(ids)?;
        self.entries.insert(network_id, copy_kinds(&ks));
        assert(self@ =~= old(self)@.insert(network_id, ks@));
        Ok(ks)
    }

    /// Resolves the serialization codecs of object `network_id` from the
    /// kinds recorded at its construction. For an object with no construction
    /// on record the list is empty and the flag is `false`: the caller may
    /// drop or defer the frame.
    pub fn resolve_serialization_codecs(&self, network_id: u16) -> (r: (Vec<ComponentKind>, bool))
        ensures
            r.1 == self@.contains_key(network_id),
            r.1 ==> r.0@ == serialization_kinds(self@[network_id]),
            !r.1 ==> r.0@ == Seq::<ComponentKind>::empty(),
    {
        match self.entries.get(&network_id) {
            Some(ks) => (serialization_codecs(ks), true),
            None => (Vec::new(), false),
        }
    }

    /// Forgets object `network_id`, once it has left relevance.
    pub fn remove(&mut self, network_id: u16)
        ensures
            final(self)@ == old(self)@.remove(network_id),
    {
        self.entries.remove(&network_id);
        assert(self@ =~= old(self)@.remove(network_id));
    }
}

} // verus!
