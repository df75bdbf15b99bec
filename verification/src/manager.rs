//! A registry that creates entities, gives each the next unused identity and
//! keeps a copy of it under that identity.

use std::collections::HashMap;
use std::marker::PhantomData;
use vstd::prelude::*;
use vstd::std_specs::hash::group_hash_axioms;

verus! {

broadcast use group_hash_axioms;

/// The identity of an entity: unique within the manager that issued it, and
/// never issued again.
pub type Id = usize;

/// An entity that a [`Manager`] can create: one that is built from the
/// identity it is given and a parameter.
pub trait Item<Param>: Sized {
    /// Builds the entity that carries the identity `id`.
    fn new(id: &Id, param: &Param) -> Self;
}

/// Whether `item` is an entity that [`Item::new`] can build from `id` and
/// `param`: what that means is for each type of entity to say, in the
/// contract of its `new`.
pub open spec fn built_from<I: Item<P>, P>(item: I, id: Id, param: P) -> bool {
    call_ensures(I::new, (&id, &param), item)
}

/// What one call of [`Manager::create`] does. The entities held go from
/// `before` to `after`: the call builds `item` under the first identity that
/// is not in use, which is the number of entities held so far, and appends a
/// copy of it. Nothing that was held before changes.
pub open spec fn created<I: Item<P> + Clone, P>(
    before: Seq<I>,
    after: Seq<I>,
    item: I,
    param: P,
) -> bool {
    &&& before.len() < usize::MAX
    &&& built_from(item, before.len() as Id, param)
    &&& after.len() == before.len() + 1
    &&& after.drop_last() == before
    &&& cloned(item, after.last())
}

/// Creates entities of type `I` from parameters of type `P` and owns a copy
/// of each.
///
/// Seen as a mathematical value a manager is the sequence of the entities it
/// holds, in the order of their creation: the identity of an entity is its
/// index in that sequence.
///
/// A manager changes through an exclusive reference only, so two calls on it
/// never overlap. Callers on several threads share it behind a lock, and are
/// given their identities in the order in which they take the lock.
pub struct Manager<I, P> where I: Item<P> + Clone {
    next_id: usize,
    items: HashMap<Id, I>,
    _param_type: PhantomData<P>,
}

impl<I, P> View for Manager<I, P> where I: Item<P> + Clone {
    type V = Seq<I>;

    closed spec fn view(&self) -> Seq<I> {
        Seq::new(self.next_id as nat, |id: int| self.items@[id as usize])
    }
}

impl<I, P> Manager<I, P> where I: Item<P> + Clone {
    /// The counter is the number of entities created, and the identities in
    /// use are exactly those below it.
    #[verifier::type_invariant]
    spec fn identities_are_dense(self) -> bool {
        forall|id: Id| self.items@.contains_key(id) <==> id < self.next_id
    }

    /// A manager that holds nothing yet.
    pub fn new() -> (manager: Self)
        ensures
            manager@ == Seq::<I>::empty(),
    {
        Manager { next_id: 0, items: HashMap::new(), _param_type: PhantomData }
    }

    /// Builds an entity from `param` under the next unused identity, keeps a
    /// copy of it under that identity, and returns it.
    ///
    /// The identities of one manager run out after `usize::MAX` entities; a
    /// caller must not ask for more.
    pub fn create(&mut self, param: &P) -> (item: I)
        requires
            old(self)@.len() < usize::MAX,
        ensures
            created(old(self)@, final(self)@, item, *param),
    {
        proof {
            use_type_invariant(&*self);
        }
        let id = self.next_id;
        let item = I::new(&id, param);
        let stored = item.clone();
        // The entity exists: only now is its identity taken. The two fields
        // change together, so the manager is taken apart and put together
        // again.
        let mut taken = Self::new();
        std::mem::swap(self, &mut taken);
        let Manager { next_id: _, items, _param_type } = taken;
        let mut items = items;
        items.insert(id, stored);
        *self = Manager { next_id: id + 1, items, _param_type };
        assert(self@.drop_last() =~= old(self)@);
        item
    }

    /// The number of entities created so far, which is also the identity
    /// that the next one will get.
    pub fn len(&self) -> (n: usize)
        ensures
            n == self@.len(),
    {
        self.next_id
    }

    /// The copy that is kept under `id`, if `id` has been issued.
    pub fn get(&self, id: Id) -> (found: Option<&I>)
        ensures
            id < self@.len() ==> found == Some(&self@[id as int]),
            id >= self@.len() ==> found is None,
    {
        proof {
            use_type_invariant(self);
        }
        self.items.get(&id)
    }
}

/// Whether `held`, `items` and `params` record calls of
/// [`Manager::create`] on one manager, from the moment it was made: `held[0]`
/// is empty, and the call number `k` was given `params[k]`, returned
/// `items[k]` and took the manager from `held[k]` to `held[k + 1]`.
pub open spec fn is_history<I: Item<P> + Clone, P>(
    held: Seq<Seq<I>>,
    items: Seq<I>,
    params: Seq<P>,
) -> bool {
    &&& held.len() == items.len() + 1
    &&& params.len() == items.len()
    &&& held[0] == Seq::<I>::empty()
    &&& forall|k: int|
        0 <= k < items.len() ==> created(held[k], #[trigger] held[k + 1], items[k], params[k])
}

/// Identities are issued in the order of the calls, counting from zero: the
/// call number `k` on a manager builds its entity under the identity `k`, so
/// no identity is issued twice. After it the manager holds `k + 1` entities,
/// and a copy of the entity stays under the identity `k` whatever is created
/// later.
pub proof fn lemma_identities_follow_call_order<I: Item<P> + Clone, P>(
    held: Seq<Seq<I>>,
    items: Seq<I>,
    params: Seq<P>,
)
    requires
        is_history(held, items, params),
    ensures
        forall|k: int| 0 <= k <= items.len() ==> (#[trigger] held[k]).len() == k,
        forall|k: int| 0 <= k < items.len() ==> built_from(#[trigger] items[k], k as Id, params[k]),
        forall|j: int, k: int|
            0 <= j < k <= items.len() ==> cloned(#[trigger] items[j], #[trigger] held[k][j]),
{
    assert forall|k: int| 0 <= k <= items.len() implies (#[trigger] held[k]).len() == k by {
        lemma_history_prefix(held, items, params, k);
    }
    assert forall|k: int| 0 <= k < items.len() implies built_from(
        #[trigger] items[k],
        k as Id,
        params[k],
    ) by {
        lemma_history_prefix(held, items, params, k);
        assert(created(held[k], held[k + 1], items[k], params[k]));
    }
    assert forall|j: int, k: int| 0 <= j < k <= items.len() implies cloned(
        #[trigger] items[j],
        #[trigger] held[k][j],
    ) by {
        lemma_history_prefix(held, items, params, k);
        assert(created(held[j], held[j + 1], items[j], params[j]));
        lemma_history_prefix(held, items, params, j);
        lemma_history_prefix(held, items, params, j + 1);
    }
}

/// After `n` calls a manager holds `n` entities, each as it was appended.
proof fn lemma_history_prefix<I: Item<P> + Clone, P>(
    held: Seq<Seq<I>>,
    items: Seq<I>,
    params: Seq<P>,
    n: int,
)
    requires
        is_history(held, items, params),
        0 <= n <= items.len(),
    ensures
        held[n].len() == n,
        forall|j: int| 0 <= j < n ==> held[n][j] == (#[trigger] held[j + 1]).last(),
    decreases n,
{
    if n > 0 {
        lemma_history_prefix(held, items, params, n - 1);
        assert(created(held[n - 1], held[n - 1 + 1], items[n - 1], params[n - 1]));
        assert forall|j: int| 0 <= j < n implies held[n][j] == (#[trigger] held[j + 1]).last() by {
            if j < n - 1 {
                assert(held[n].drop_last()[j] == held[n][j]);
            }
        }
    }
}

/// The smallest entity there is: its identity and the two values of its
/// parameter, each in a field of its own.
pub struct TestItem {
    pub id: Id,
    pub a: i32,
    pub b: bool,
}

impl Clone for TestItem {
    fn clone(&self) -> (copy: Self)
        ensures
            copy == *self,
    {
        TestItem { id: self.id, a: self.a, b: self.b }
    }
}

impl Item<(i32, bool)> for TestItem {
    fn new(id: &Id, param: &(i32, bool)) -> (item: Self)
        ensures
            item.id == *id,
            item.a == param.0,
            item.b == param.1,
    {
        TestItem { id: *id, a: param.0, b: param.1 }
    }
}

} // verus!
