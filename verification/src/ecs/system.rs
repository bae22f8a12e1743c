use vstd::prelude::*;

use super::entity::EntityId;
use super::world::World;
use super::Error;

verus! {

/// The input handed to a system that takes one.
pub struct In<T>(pub T);

/// Identifier of a registered system: the entity that holds it.
pub struct SystemId<I, O> {
    entity: EntityId,
    marker: core::marker::PhantomData<(I, O)>,
}

impl<I, O> SystemId<I, O> {
    pub closed spec fn spec_entity(&self) -> EntityId {
        self.entity
    }

    pub fn new(entity: EntityId) -> (id: Self)
        ensures
            id.spec_entity() == entity,
    {
        SystemId { entity, marker: core::marker::PhantomData }
    }

    pub fn entity(&self) -> (e: EntityId)
        ensures
            e == self.spec_entity(),
    {
        self.entity
    }
}

/// What running a system can fail with.
pub enum SystemError<I, O> {
    SystemNotRegistered(SystemId<I, O>),
}

/// The decimal digits of `n`, most significant first.
pub open spec fn decimal(n: nat) -> Seq<char>
    decreases n,
{
    if n < 10 {
        seq![digit_char(n)]
    } else {
        decimal(n / 10).push(digit_char(n % 10))
    }
}

pub open spec fn digit_char(d: nat) -> char {
    if d == 0 { '0' } else if d == 1 { '1' } else if d == 2 { '2' } else if d == 3 { '3' }
    else if d == 4 { '4' } else if d == 5 { '5' } else if d == 6 { '6' } else if d == 7 { '7' }
    else if d == 8 { '8' } else { '9' }
}

fn digit_str(d: usize) -> (s: &'static str)
    requires
        d < 10,
    ensures
        s@ == seq![digit_char(d as nat)],
{
    let s = if d == 0 { "0" } else if d == 1 { "1" } else if d == 2 { "2" } else if d == 3 { "3" }
        else if d == 4 { "4" } else if d == 5 { "5" } else if d == 6 { "6" } else if d == 7 { "7" }
        else if d == 8 { "8" } else { "9" };
    proof {
        reveal_strlit("0");
        reveal_strlit("1");
        reveal_strlit("2");
        reveal_strlit("3");
        reveal_strlit("4");
        reveal_strlit("5");
        reveal_strlit("6");
        reveal_strlit("7");
        reveal_strlit("8");
        reveal_strlit("9");
    }
    s
}

/// Appends the decimal digits of `n` to `out`.
pub fn append_decimal(out: &mut String, n: usize)
    ensures
        final(out)@ == old(out)@ + decimal(n as nat),
    decreases n,
{
    if n < 10 {
        out.append(digit_str(n));
    } else {
        append_decimal(out, n / 10);
        out.append(digit_str(n % 10));
        assert(old(out)@ + decimal(n as nat) =~= old(out)@ + decimal((n / 10) as nat) + seq![digit_char((n % 10) as nat)]);
    }
}

/// How the entity `e` of a system id is written: `SystemId(EntityId(n))`.
pub open spec fn system_id_text(e: EntityId) -> Seq<char> {
    "SystemId(EntityId("@ + decimal(e.spec_index() as nat) + "))"@
}

impl<I, O> SystemError<I, O> {
    /// The human-readable description of the error.
    pub fn message(&self) -> (s: String)
        ensures
            s@ == match self {
                SystemError::SystemNotRegistered(id) => "System "@ + system_id_text(id.spec_entity()) + " was not registered"@,
            },
    {
        match self {
            SystemError::SystemNotRegistered(id) => {
                let mut s = String::from_str("System SystemId(EntityId(");
                append_decimal(&mut s, id.entity().as_usize());
                s.append(")) was not registered");
                proof {
                    reveal_strlit("System SystemId(EntityId(");
                    reveal_strlit("System ");
                    reveal_strlit("SystemId(EntityId(");
                    reveal_strlit(")) was not registered");
                    reveal_strlit("))");
                    reveal_strlit(" was not registered");
                    assert(s@ =~= "System "@ + system_id_text(id.spec_entity()) + " was not registered"@);
                }
                s
            },
        }
    }
}

/// The registered systems, each held under the index of the entity that
/// names it.
pub struct Systems<S> {
    registered: std::collections::HashMap<usize, S>,
}

impl<S> View for Systems<S> {
    type V = Map<usize, S>;

    closed spec fn view(&self) -> Map<usize, S> {
        self.registered@
    }
}

impl<S> Systems<S> {
    /// No system registered.
    pub fn new() -> (r: Self)
        ensures
            r@ == Map::<usize, S>::empty(),
    {
        Systems { registered: std::collections::HashMap::new() }
    }

    /// Registers `system` under a new entity of `world` and returns its id;
    /// fails with `WorldOutOfBounds`, registering nothing, when the world
    /// has no entity index left.
    pub fn register_system<I, O>(&mut self, world: &mut World, system: S) -> (r: Result<SystemId<I, O>, Error>)
        requires
            old(world).wf(),
        ensures
            final(world).wf(),
            old(world).spec_last_entity_index() == usize::MAX ==> {
                &&& r matches Err(Error::WorldOutOfBounds)
                &&& *final(world) == *old(world)
                &&& final(self)@ == old(self)@
            },
            old(world).spec_last_entity_index() < usize::MAX ==> {
                &&& r matches Ok(id)
                &&& id.spec_entity().spec_index() == old(world).spec_last_entity_index() + 1
                &&& final(world).spec_last_entity_index() == id.spec_entity().spec_index()
                &&& final(world).spec_entities()@.contains_key(id.spec_entity().spec_index())
                &&& final(self)@ == old(self)@.insert(id.spec_entity().spec_index(), system)
            },
    {
        match world.create_entity() {
            Ok(entity) => {
                broadcast use vstd::std_specs::hash::group_hash_axioms;
                self.registered.insert(entity.as_usize(), system);
                Ok(SystemId::new(entity))
            },
            Err(e) => Err(e),
        }
    }

    /// Takes out the system registered as `id` so that it can run; fails
    /// with `SystemNotRegistered`, changing nothing, if there is none.
    pub fn take_system<I, O>(&mut self, id: SystemId<I, O>) -> (r: Result<(SystemId<I, O>, S), SystemError<I, O>>)
        ensures
            !old(self)@.contains_key(id.spec_entity().spec_index()) ==> {
                &&& r matches Err(SystemError::SystemNotRegistered(same)) && same.spec_entity() == id.spec_entity()
                &&& final(self)@ == old(self)@
            },
            old(self)@.contains_key(id.spec_entity().spec_index()) ==> {
                &&& r matches Ok((same, system)) && same.spec_entity() == id.spec_entity()
                    && system == old(self)@[id.spec_entity().spec_index()]
                &&& final(self)@ == old(self)@.remove(id.spec_entity().spec_index())
            },
    {
        broadcast use vstd::std_specs::hash::group_hash_axioms;
        match self.registered.remove(&id.entity().as_usize()) {
            Some(system) => Ok((id, system)),
            None => Err(SystemError::SystemNotRegistered(id)),
        }
    }

    /// Puts back a system taken out as `id`.
    pub fn restore_system<I, O>(&mut self, id: &SystemId<I, O>, system: S)
        ensures
            final(self)@ == old(self)@.insert(id.spec_entity().spec_index(), system),
    {
        broadcast use vstd::std_specs::hash::group_hash_axioms;
        self.registered.insert(id.entity().as_usize(), system);
    }
}

/// A system just registered is the one taken out under its id, and putting
/// it back after a run leaves the registry as registration left it.
pub proof fn lemma_take_after_register<S>(registered: Map<usize, S>, index: usize, system: S)
    ensures
        registered.insert(index, system).contains_key(index),
        registered.insert(index, system)[index] == system,
        registered.insert(index, system).remove(index).insert(index, system) == registered.insert(index, system),
{
    assert(registered.insert(index, system).remove(index).insert(index, system) =~= registered.insert(index, system));
}

} // verus!
