use std::collections::HashMap;
use vstd::prelude::*;

use crate::dna::{combine_kitties, combine_seq, random_draw, random_value, Kitty};
use crate::ledger::{after_unreserve, AccountId, Balance, Ledger};

verus! {

broadcast use {vstd::std_specs::hash::group_hash_axioms, vstd::seq_lib::group_seq_properties};

/// Identifier of a creature: allocated as 0, 1, 2, ... and never reused.
pub type KittyIndex = u32;

/// Why an operation on the registry was rejected. A rejected operation changes nothing.
#[derive(Clone, Copy, Debug, PartialEq, Eq, Structural)]
pub enum KittyError {
    /// Every identifier has been allocated.
    KittiesCountOverflow,
    /// The identifier names no creature.
    InvalidKittyId,
    /// A creature cannot be bred with itself.
    RequireDifferentParent,
    /// The sender does not own the creature.
    NotValidOwner,
    /// A creature cannot be transferred to its own owner.
    NotValidReceiver,
    /// The ledger refused to reserve the deposit.
    InsufficientDeposit,
}

/// What the registry reports of each operation that succeeded.
#[derive(Clone, Copy, Debug, PartialEq, Eq, Structural)]
pub enum KittyEvent {
    /// `(owner, id)`
    Created(AccountId, KittyIndex),
    /// `(from, to, id)`
    Transferred(AccountId, AccountId, KittyIndex),
    /// `(owner, parent_1, parent_2, child)`
    Breeded(AccountId, KittyIndex, KittyIndex, KittyIndex),
}

/// The creatures, who owns them, and how they are related.
///
/// Each table but `owned` is indexed by `KittyIndex`: the identifiers are exactly the indices
/// `0..kitties.len()`.
pub struct KittyRegistry {
    kitties: Vec<Kitty>,
    owners: Vec<AccountId>,
    owned: HashMap<AccountId, Vec<KittyIndex>>,
    parents: Vec<Option<(KittyIndex, KittyIndex)>>,
    children: Vec<Vec<KittyIndex>>,
    siblings: Vec<Vec<KittyIndex>>,
    partners: Vec<Vec<KittyIndex>>,
    events: Vec<KittyEvent>,
    deposit: Balance,
    seed: [u8; 32],
    draws: u32,
}

/// The draw counter after one draw: it wraps around.
pub open spec fn next_draw(d: u32) -> u32 {
    if d == u32::MAX {
        0
    } else {
        (d + 1) as u32
    }
}

/// The ledger moved `amount` of `who`'s free balance into reserve and touched no other account.
pub open spec fn reserve_added<L: Ledger>(pre: L, post: L, who: AccountId, amount: Balance) -> bool {
    &&& post.reserved(who) == pre.reserved(who) + amount
    &&& post.free(who) + amount == pre.free(who)
    &&& forall|a: AccountId| a != who ==> #[trigger] post.reserved(a) == pre.reserved(a)
    &&& forall|a: AccountId| a != who ==> #[trigger] post.free(a) == pre.free(a)
}

/// The creatures that `who` owns according to the owner index `m`.
spec fn owned_in(m: Map<AccountId, Vec<KittyIndex>>, who: AccountId) -> Seq<KittyIndex> {
    if m.contains_key(who) {
        m[who]@
    } else {
        Seq::empty()
    }
}

/// Records `a` and `b` as partners of each other, unless they already are.
fn record_partners(partners: &mut Vec<Vec<KittyIndex>>, a: KittyIndex, b: KittyIndex)
    requires
        a != b,
        a < old(partners)@.len(),
        b < old(partners)@.len(),
    ensures
        final(partners)@.len() == old(partners)@.len(),
        old(partners)@[a as int]@.contains(b) ==> final(partners)@ == old(partners)@,
        !old(partners)@[a as int]@.contains(b) ==> {
            &&& final(partners)@[a as int]@ == old(partners)@[a as int]@.push(b)
            &&& final(partners)@[b as int]@ == old(partners)@[b as int]@.push(a)
            &&& forall|j: int|
                0 <= j < old(partners)@.len() && j != a && j != b ==> #[trigger] final(partners)@[j]
                    == old(partners)@[j]
        },
{
    let mut prev_partner = false;
    let mut k: usize = 0;
    while k < partners[a as usize].len()
        invariant_except_break
            !prev_partner,
        invariant
            partners@ == old(partners)@,
            a < partners@.len(),
            k <= partners@[a as int]@.len(),
            forall|j: int| 0 <= j < k ==> partners@[a as int]@[j] != b,
        ensures
            prev_partner <==> partners@[a as int]@.contains(b),
        decreases partners@[a as int]@.len() - k,
    {
        if partners[a as usize][k] == b {
            prev_partner = true;
            break;
        }
        k = k + 1;
    }
    if !prev_partner {
        partners[a as usize].push(b);
        partners[b as usize].push(a);
    }
}

/// Links `child` as a sibling of each creature in `others`, and appends `others` to `acc`.
fn link_siblings(
    siblings: &mut Vec<Vec<KittyIndex>>,
    others: &Vec<KittyIndex>,
    child: KittyIndex,
    acc: &mut Vec<KittyIndex>,
)
    requires
        old(siblings)@.len() <= KittyIndex::MAX,
        forall|k: int| 0 <= k < others@.len() ==> others@[k] < old(siblings)@.len(),
    ensures
        final(siblings)@.len() == old(siblings)@.len(),
        final(acc)@ == old(acc)@ + others@,
        forall|c: int, x: KittyIndex|
            0 <= c < old(siblings)@.len() ==> (#[trigger] final(siblings)@[c]@.contains(x) <==> (
            old(siblings)@[c]@.contains(x) || (x == child && others@.contains(c as KittyIndex)))),
{
    let mut k: usize = 0;
    while k < others.len()
        invariant
            k <= others@.len(),
            siblings@.len() == old(siblings)@.len(),
            old(siblings)@.len() <= KittyIndex::MAX,
            forall|j: int| 0 <= j < others@.len() ==> others@[j] < old(siblings)@.len(),
            acc@ == old(acc)@ + others@.subrange(0, k as int),
            forall|c: int, x: KittyIndex|
                0 <= c < old(siblings)@.len() ==> (#[trigger] siblings@[c]@.contains(x) <==> (
                old(siblings)@[c]@.contains(x) || (x == child && others@.subrange(
                    0,
                    k as int,
                ).contains(c as KittyIndex)))),
        decreases others@.len() - k,
    {
        let item = others[k];
        let ghost before = siblings@;
        let ghost seen = others@.subrange(0, k as int);
        siblings[item as usize].push(child);
        acc.push(item);
        k = k + 1;
        proof {
            let now = others@.subrange(0, k as int);
            assert(now == seen.push(item));
            assert(acc@ == old(acc)@ + now);
            assert forall|c: int, x: KittyIndex| 0 <= c < old(siblings)@.len() implies (
            #[trigger] siblings@[c]@.contains(x) <==> (old(siblings)@[c]@.contains(x) || (x == child
                && now.contains(c as KittyIndex)))) by {
                assert(before[c]@.contains(x) <==> (old(siblings)@[c]@.contains(x) || (x == child
                    && seen.contains(c as KittyIndex))));
                if c == item as int {
                    assert(siblings@[c]@ == before[c]@.push(child));
                    assert(now.contains(c as KittyIndex));
                } else {
                    assert(siblings@[c] == before[c]);
                    assert(now.contains(c as KittyIndex) <==> seen.contains(c as KittyIndex));
                }
            }
        }
    }
    assert(others@.subrange(0, others@.len() as int) == others@);
}

impl KittyRegistry {
    /// Number of creatures; also the next identifier.
    pub closed spec fn count(&self) -> nat {
        self.kitties@.len()
    }

    /// Traits of creature `id`.
    pub closed spec fn dna(&self, id: int) -> Seq<u8> {
        self.kitties@[id].0@
    }

    /// Owner of creature `id`.
    pub closed spec fn owner(&self, id: int) -> AccountId {
        self.owners@[id]
    }

    /// The creatures that `who` owns.
    pub closed spec fn owned_by(&self, who: AccountId) -> Seq<KittyIndex> {
        owned_in(self.owned@, who)
    }

    /// The parents of creature `id`, where it was bred.
    pub closed spec fn parents_of(&self, id: int) -> Option<(KittyIndex, KittyIndex)> {
        self.parents@[id]
    }

    /// The creatures bred with `id` as a parent.
    pub closed spec fn children_of(&self, id: int) -> Seq<KittyIndex> {
        self.children@[id]@
    }

    /// The creatures that share a parent with `id`.
    pub closed spec fn siblings_of(&self, id: int) -> Seq<KittyIndex> {
        self.siblings@[id]@
    }

    /// The creatures that `id` has been bred with.
    pub closed spec fn partners_of(&self, id: int) -> Seq<KittyIndex> {
        self.partners@[id]@
    }

    /// Everything reported so far, oldest first.
    pub closed spec fn event_log(&self) -> Seq<KittyEvent> {
        self.events@
    }

    /// The amount reserved for each creature owned.
    pub closed spec fn deposit_value(&self) -> Balance {
        self.deposit
    }

    /// The environment seed of random draws.
    pub closed spec fn seed(&self) -> Seq<u8> {
        self.seed@
    }

    /// How many random draws have been made, wrapping around.
    pub closed spec fn draws(&self) -> u32 {
        self.draws
    }

    /// The registry's invariant: the tables have one entry per creature, ownership is recorded
    /// both ways, and partnership is symmetric and free of repeats.
    pub closed spec fn wf(&self) -> bool {
        let n = self.kitties@.len();
        &&& n <= KittyIndex::MAX
        &&& self.owners@.len() == n
        &&& self.parents@.len() == n
        &&& self.children@.len() == n
        &&& self.siblings@.len() == n
        &&& self.partners@.len() == n
        &&& forall|i: int|
            0 <= i < n ==> (#[trigger] owned_in(self.owned@, self.owners@[i])).contains(
                i as KittyIndex,
            )
        &&& forall|a: AccountId, k: int|
            0 <= k < owned_in(self.owned@, a).len() ==> (#[trigger] owned_in(self.owned@, a)[k]) < n
                && self.owners@[owned_in(self.owned@, a)[k] as int] == a
        &&& forall|a: AccountId| #[trigger] owned_in(self.owned@, a).no_duplicates()
        &&& forall|i: int, k: int|
            0 <= i < n && 0 <= k < self.children@[i]@.len() ==> (#[trigger] self.children@[i]@[k])
                < n
        &&& forall|i: int| 0 <= i < n ==> (#[trigger] self.partners@[i]@).no_duplicates()
        &&& forall|i: int, k: int|
            0 <= i < n && 0 <= k < self.partners@[i]@.len() ==> (#[trigger] self.partners@[i]@[k])
                < n && self.partners@[self.partners@[i]@[k] as int]@.contains(i as KittyIndex)
    }

    /// The genealogy of the first `n` creatures is the same in `self` and `other`.
    pub open spec fn genealogy_kept(&self, other: &KittyRegistry, n: nat) -> bool {
        &&& forall|j: int| 0 <= j < n ==> #[trigger] other.parents_of(j) == self.parents_of(j)
        &&& forall|j: int| 0 <= j < n ==> #[trigger] other.children_of(j) == self.children_of(j)
        &&& forall|j: int| 0 <= j < n ==> #[trigger] other.siblings_of(j) == self.siblings_of(j)
        &&& forall|j: int| 0 <= j < n ==> #[trigger] other.partners_of(j) == self.partners_of(j)
    }

    /// What creating and breeding have in common: `id` is the next identifier, it now names a
    /// creature with traits `dna` owned by `owner`, and one random draw was spent.
    pub open spec fn asset_added(
        pre: KittyRegistry,
        post: KittyRegistry,
        owner: AccountId,
        id: KittyIndex,
        dna: Seq<u8>,
    ) -> bool {
        &&& id == pre.count()
        &&& post.count() == pre.count() + 1
        &&& post.dna(id as int) == dna
        &&& post.owner(id as int) == owner
        &&& forall|j: int| 0 <= j < pre.count() ==> #[trigger] post.dna(j) == pre.dna(j)
        &&& forall|j: int| 0 <= j < pre.count() ==> #[trigger] post.owner(j) == pre.owner(j)
        &&& post.owned_by(owner) == pre.owned_by(owner).push(id)
        &&& forall|a: AccountId| a != owner ==> #[trigger] post.owned_by(a) == pre.owned_by(a)
        &&& post.deposit_value() == pre.deposit_value()
        &&& post.seed() == pre.seed()
        &&& post.draws() == next_draw(pre.draws())
    }

    /// The effect of a successful `create(owner)` that returned `id`.
    pub open spec fn created(
        pre: KittyRegistry,
        post: KittyRegistry,
        owner: AccountId,
        id: KittyIndex,
    ) -> bool {
        &&& Self::asset_added(pre, post, owner, id, random_draw(pre.seed(), owner, pre.draws()))
        &&& pre.genealogy_kept(&post, pre.count())
        &&& post.parents_of(id as int) is None
        &&& post.children_of(id as int) == Seq::<KittyIndex>::empty()
        &&& post.siblings_of(id as int) == Seq::<KittyIndex>::empty()
        &&& post.partners_of(id as int) == Seq::<KittyIndex>::empty()
        &&& post.event_log() == pre.event_log().push(KittyEvent::Created(owner, id))
    }

    /// Two registries with the same tables agree on every fact about the tables.
    proof fn lemma_same_tables(a: KittyRegistry, b: KittyRegistry)
        requires
            a.kitties@ == b.kitties@,
            a.owners@ == b.owners@,
            a.owned@ == b.owned@,
            a.parents@ == b.parents@,
            a.children@ == b.children@,
            a.siblings@ == b.siblings@,
            a.partners@ == b.partners@,
        ensures
            a.wf() ==> b.wf(),
            b.count() == a.count(),
            forall|j: int| #[trigger] b.dna(j) == a.dna(j),
            forall|j: int| #[trigger] b.owner(j) == a.owner(j),
            forall|x: AccountId| #[trigger] b.owned_by(x) == a.owned_by(x),
            forall|j: int| #[trigger] b.parents_of(j) == a.parents_of(j),
            forall|j: int| #[trigger] b.children_of(j) == a.children_of(j),
            forall|j: int| #[trigger] b.siblings_of(j) == a.siblings_of(j),
            forall|j: int| #[trigger] b.partners_of(j) == a.partners_of(j),
    {
        assert forall|x: AccountId| #[trigger] b.owned_by(x) == a.owned_by(x) by {}
    }

    /// The effect of a successful `transfer` of creature `id` from `from` to `to`.
    pub open spec fn transferred(
        pre: KittyRegistry,
        post: KittyRegistry,
        from: AccountId,
        to: AccountId,
        id: KittyIndex,
    ) -> bool {
        &&& post.count() == pre.count()
        &&& post.owner(id as int) == to
        &&& forall|j: int| 0 <= j < pre.count() ==> #[trigger] post.dna(j) == pre.dna(j)
        &&& forall|j: int|
            0 <= j < pre.count() && j != id ==> #[trigger] post.owner(j) == pre.owner(j)
        &&& exists|k: int|
            0 <= k < pre.owned_by(from).len() && #[trigger] pre.owned_by(from)[k] == id
                && post.owned_by(from) == pre.owned_by(from).remove(k)
        &&& post.owned_by(to) == pre.owned_by(to).push(id)
        &&& forall|a: AccountId|
            a != from && a != to ==> #[trigger] post.owned_by(a) == pre.owned_by(a)
        &&& pre.genealogy_kept(&post, pre.count())
        &&& post.deposit_value() == pre.deposit_value()
        &&& post.seed() == pre.seed()
        &&& post.draws() == pre.draws()
        &&& post.event_log() == pre.event_log().push(KittyEvent::Transferred(from, to, id))
    }

    /// The effect of a successful `breed(owner, parent_1, parent_2)` that returned `id`.
    pub open spec fn bred(
        pre: KittyRegistry,
        post: KittyRegistry,
        owner: AccountId,
        parent_1: KittyIndex,
        parent_2: KittyIndex,
        id: KittyIndex,
    ) -> bool {
        &&& parent_1 < pre.count() && parent_2 < pre.count() && parent_1 != parent_2
        &&& Self::asset_added(
            pre,
            post,
            owner,
            id,
            combine_seq(
                pre.dna(parent_1 as int),
                pre.dna(parent_2 as int),
                random_draw(pre.seed(), owner, pre.draws()),
            ),
        )
        &&& post.parents_of(id as int) == Some((parent_1, parent_2))
        &&& post.children_of(parent_1 as int) == pre.children_of(parent_1 as int).push(id)
        &&& post.children_of(parent_2 as int) == pre.children_of(parent_2 as int).push(id)
        &&& post.children_of(id as int) == Seq::<KittyIndex>::empty()
        &&& post.siblings_of(id as int) == pre.children_of(parent_1 as int) + pre.children_of(parent_2 as int)
        &&& post.partners_of(id as int) == Seq::<KittyIndex>::empty()
        &&& if pre.partners_of(parent_1 as int).contains(parent_2) {
            &&& post.partners_of(parent_1 as int) == pre.partners_of(parent_1 as int)
            &&& post.partners_of(parent_2 as int) == pre.partners_of(parent_2 as int)
        } else {
            &&& post.partners_of(parent_1 as int) == pre.partners_of(parent_1 as int).push(parent_2)
            &&& post.partners_of(parent_2 as int) == pre.partners_of(parent_2 as int).push(parent_1)
        }
        &&& forall|j: int| 0 <= j < pre.count() ==> #[trigger] post.parents_of(j) == pre.parents_of(j)
        &&& forall|j: int|
            0 <= j < pre.count() && j != parent_1 && j != parent_2 ==> #[trigger] post.children_of(j)
                == pre.children_of(j)
        &&& forall|j: int|
            0 <= j < pre.count() && j != parent_1 && j != parent_2 ==> #[trigger] post.partners_of(j)
                == pre.partners_of(j)
        &&& forall|c: int, x: KittyIndex|
            0 <= c < pre.count() ==> (#[trigger] post.siblings_of(c).contains(x) <==> (
            pre.siblings_of(c).contains(x) || (x == id && (pre.children_of(parent_1 as int).contains(
                c as KittyIndex,
            ) || pre.children_of(parent_2 as int).contains(c as KittyIndex)))))
        &&& post.event_log() == pre.event_log().push(KittyEvent::Breeded(owner, parent_1, parent_2, id))
    }

    /// An empty registry that reserves `deposit` per creature owned and draws its randomness
    /// from `seed`.
    pub fn new(deposit: Balance, seed: [u8; 32]) -> (r: KittyRegistry)
        ensures
            r.wf(),
            r.count() == 0,
            forall|a: AccountId| #[trigger] r.owned_by(a) == Seq::<KittyIndex>::empty(),
            r.event_log() == Seq::<KittyEvent>::empty(),
            r.deposit_value() == deposit,
            r.seed() == seed@,
            r.draws() == 0,
    {
        KittyRegistry {
            kitties: Vec::new(),
            owners: Vec::new(),
            owned: HashMap::new(),
            parents: Vec::new(),
            children: Vec::new(),
            siblings: Vec::new(),
            partners: Vec::new(),
            events: Vec::new(),
            deposit,
            seed,
            draws: 0,
        }
    }

    /// The creature `id`, if there is one.
    pub fn kitties(&self, id: KittyIndex) -> (r: Option<Kitty>)
        requires
            self.wf(),
        ensures
            id < self.count() ==> (r matches Some(k) && k.0@ == self.dna(id as int)),
            id >= self.count() ==> r is None,
    {
        if (id as usize) < self.kitties.len() {
            Some(Kitty(self.kitties[id as usize].0))
        } else {
            None
        }
    }

    /// The number of creatures, which is also the next identifier.
    pub fn kitties_count(&self) -> (r: KittyIndex)
        requires
            self.wf(),
        ensures
            r == self.count(),
    {
        self.kitties.len() as KittyIndex
    }

    /// The owner of creature `id`, if there is one.
    pub fn kitty_owner(&self, id: KittyIndex) -> (r: Option<AccountId>)
        requires
            self.wf(),
        ensures
            id < self.count() ==> r == Some(self.owner(id as int)),
            id >= self.count() ==> r is None,
    {
        if (id as usize) < self.owners.len() {
            Some(self.owners[id as usize])
        } else {
            None
        }
    }

    /// The creatures that `who` owns.
    pub fn owned_kitties(&self, who: AccountId) -> (r: Vec<KittyIndex>)
        ensures
            r@ == self.owned_by(who),
    {
        match self.owned.get(&who) {
            Some(list) => list.clone(),
            None => Vec::new(),
        }
    }

    /// The parents of creature `id`, where it was bred.
    pub fn kitty_parents(&self, id: KittyIndex) -> (r: Option<(KittyIndex, KittyIndex)>)
        requires
            self.wf(),
        ensures
            id < self.count() ==> r == self.parents_of(id as int),
            id >= self.count() ==> r is None,
    {
        if (id as usize) < self.parents.len() {
            self.parents[id as usize]
        } else {
            None
        }
    }

    /// The siblings of creature `id`; empty where there is no such creature.
    pub fn kitty_siblings(&self, id: KittyIndex) -> (r: Vec<KittyIndex>)
        requires
            self.wf(),
        ensures
            id < self.count() ==> r@ == self.siblings_of(id as int),
            id >= self.count() ==> r@ == Seq::<KittyIndex>::empty(),
    {
        if (id as usize) < self.siblings.len() {
            self.siblings[id as usize].clone()
        } else {
            Vec::new()
        }
    }

    /// The children of creature `id`; empty where there is no such creature.
    pub fn kitty_children(&self, id: KittyIndex) -> (r: Vec<KittyIndex>)
        requires
            self.wf(),
        ensures
            id < self.count() ==> r@ == self.children_of(id as int),
            id >= self.count() ==> r@ == Seq::<KittyIndex>::empty(),
    {
        if (id as usize) < self.children.len() {
            self.children[id as usize].clone()
        } else {
            Vec::new()
        }
    }

    /// The partners of creature `id`; empty where there is no such creature.
    pub fn kitty_partners(&self, id: KittyIndex) -> (r: Vec<KittyIndex>)
        requires
            self.wf(),
        ensures
            id < self.count() ==> r@ == self.partners_of(id as int),
            id >= self.count() ==> r@ == Seq::<KittyIndex>::empty(),
    {
        if (id as usize) < self.partners.len() {
            self.partners[id as usize].clone()
        } else {
            Vec::new()
        }
    }

    /// Everything reported so far, oldest first.
    pub fn events(&self) -> (r: &Vec<KittyEvent>)
        ensures
            r@ == self.event_log(),
    {
        &self.events
    }

    /// The amount reserved for each creature owned.
    pub fn deposit(&self) -> (r: Balance)
        ensures
            r == self.deposit_value(),
    {
        self.deposit
    }

    /// The identifier that the next creature will get, unless all have been allocated.
    fn next_kitty_id(&self) -> (r: Result<KittyIndex, KittyError>)
        requires
            self.wf(),
        ensures
            self.count() == KittyIndex::MAX ==> r == Err::<KittyIndex, KittyError>(
                KittyError::KittiesCountOverflow,
            ),
            self.count() < KittyIndex::MAX ==> r == Ok::<KittyIndex, KittyError>(
                self.count() as KittyIndex,
            ),
    {
        let n = self.kitties.len();
        if n == KittyIndex::MAX as usize {
            return Err(KittyError::KittiesCountOverflow);
        }
        Ok(n as KittyIndex)
    }

    /// Draws 16 random bytes for `who` and advances the draw counter.
    fn draw_random(&mut self, who: AccountId) -> (r: [u8; 16])
        ensures
            r@ == random_draw(old(self).seed@, who, old(self).draws),
            *final(self) == (KittyRegistry { draws: next_draw(old(self).draws), ..*old(self) }),
    {
        let r = random_value(&self.seed, who, self.draws);
        self.draws = if self.draws == u32::MAX {
            0
        } else {
            self.draws + 1
        };
        r
    }

    /// Appends `id` to the creatures that `owner` owns.
    fn add_kitty_to_owner(&mut self, owner: AccountId, id: KittyIndex)
        ensures
            final(self).owned_by(owner) == old(self).owned_by(owner).push(id),
            forall|a: AccountId|
                a != owner ==> #[trigger] owned_in(final(self).owned@, a) == owned_in(
                    old(self).owned@,
                    a,
                ),
            *final(self) == (KittyRegistry { owned: final(self).owned, ..*old(self) }),
    {
        let mut list = match self.owned.remove(&owner) {
            Some(l) => l,
            None => Vec::new(),
        };
        list.push(id);
        self.owned.insert(owner, list);
    }

    /// Takes `id` out of the creatures that `owner` owns; returns where it stood, or `None`
    /// where `owner` does not hold it.
    fn remove_kitty_from_owner(&mut self, owner: AccountId, id: KittyIndex) -> (r: Option<usize>)
        ensures
            r matches Some(k) ==> k < old(self).owned_by(owner).len(),
            r matches Some(k) ==> old(self).owned_by(owner)[k as int] == id,
            r matches Some(k) ==> final(self).owned_by(owner) == old(self).owned_by(owner).remove(
                k as int,
            ),
            r is None ==> !old(self).owned_by(owner).contains(id),
            r is None ==> final(self).owned_by(owner) == old(self).owned_by(owner),
            forall|a: AccountId|
                a != owner ==> #[trigger] owned_in(final(self).owned@, a) == owned_in(
                    old(self).owned@,
                    a,
                ),
            *final(self) == (KittyRegistry { owned: final(self).owned, ..*old(self) }),
    {
        let mut list = match self.owned.remove(&owner) {
            Some(l) => l,
            None => Vec::new(),
        };
        assert(list@ == old(self).owned_by(owner));
        let mut k: usize = 0;
        let mut found = false;
        while k < list.len()
            invariant_except_break
                !found,
            invariant
                list@ == old(self).owned_by(owner),
                k <= list.len(),
                forall|j: int| 0 <= j < k ==> list@[j] != id,
            ensures
                list@ == old(self).owned_by(owner),
                forall|j: int| 0 <= j < k ==> list@[j] != id,
                found ==> k < list.len() && list@[k as int] == id,
                !found ==> k == list.len(),
            decreases list.len() - k,
        {
            if list[k] == id {
                found = true;
                break;
            }
            k = k + 1;
        }
        if found {
            list.remove(k);
            self.owned.insert(owner, list);
            Some(k)
        } else {
            assert(!list@.contains(id));
            self.owned.insert(owner, list);
            None
        }
    }

    /// Stores a new creature `id` owned by `owner`, with no genealogy yet.
    fn insert_kitty(&mut self, owner: AccountId, id: KittyIndex, kitty: Kitty)
        requires
            old(self).wf(),
            id == old(self).count(),
            old(self).count() < KittyIndex::MAX,
        ensures
            final(self).count() == old(self).count() + 1,
            final(self).dna(id as int) == kitty.0@,
            final(self).owner(id as int) == owner,
            forall|j: int|
                0 <= j < old(self).count() ==> #[trigger] final(self).dna(j) == old(self).dna(j),
            forall|j: int|
                0 <= j < old(self).count() ==> #[trigger] final(self).owner(j) == old(self).owner(j),
            final(self).owned_by(owner) == old(self).owned_by(owner).push(id),
            forall|a: AccountId|
                a != owner ==> #[trigger] final(self).owned_by(a) == old(self).owned_by(a),
            old(self).genealogy_kept(&*final(self), old(self).count()),
            final(self).parents_of(id as int) is None,
            final(self).children_of(id as int) == Seq::<KittyIndex>::empty(),
            final(self).siblings_of(id as int) == Seq::<KittyIndex>::empty(),
            final(self).partners_of(id as int) == Seq::<KittyIndex>::empty(),
            final(self).wf(),
            final(self).events == old(self).events,
            final(self).deposit == old(self).deposit,
            final(self).seed == old(self).seed,
            final(self).draws == old(self).draws,
    {
        self.kitties.push(kitty);
        self.owners.push(owner);
        self.parents.push(None);
        self.children.push(Vec::new());
        self.siblings.push(Vec::new());
        self.partners.push(Vec::new());
        self.add_kitty_to_owner(owner, id);
        let ghost pre = *old(self);
        let ghost n = pre.kitties@.len();
        assert forall|i: int| 0 <= i < n + 1 implies #[trigger] owned_in(self.owned@, 
            self.owners@[i],
        ).contains(i as KittyIndex) by {
            if i < n {
                let a = pre.owners@[i];
                assert(owned_in(pre.owned@, a).contains(i as KittyIndex));
                if a == owner {
                    assert(owned_in(self.owned@, a) == owned_in(pre.owned@, a).push(id));
                }
            } else {
                assert(owned_in(self.owned@, owner)[owned_in(pre.owned@, owner).len() as int] == id);
            }
        }
        assert forall|a: AccountId, k: int|
            0 <= k < owned_in(self.owned@, a).len() implies (#[trigger] owned_in(self.owned@, a)[k]) < n + 1
            && self.owners@[owned_in(self.owned@, a)[k] as int] == a by {
            if a == owner && k == owned_in(pre.owned@, owner).len() {
            } else {
                assert(owned_in(self.owned@, a)[k] == owned_in(pre.owned@, a)[k]);
            }
        }
        assert forall|a: AccountId| #[trigger] owned_in(self.owned@, a).no_duplicates() by {
            if a == owner {
                let s = owned_in(pre.owned@, owner);
                assert forall|k: int| 0 <= k < s.len() implies s[k] != id by {
                    assert(s[k] < n);
                }
                assert(!s.contains(id));
                assert forall|i: int, j: int|
                    0 <= i < s.len() + 1 && 0 <= j < s.len() + 1 && i != j implies s.push(id)[i]
                    != s.push(id)[j] by {
                    if i < s.len() && j < s.len() {
                        assert(s.no_duplicates());
                    }
                }
            }
        }
        assert forall|i: int, k: int|
            0 <= i < n + 1 && 0 <= k < self.partners@[i]@.len() implies (
            #[trigger] self.partners@[i]@[k]) < n + 1 && self.partners@[self.partners@[i]@[k] as int]@.contains(
            i as KittyIndex,
        ) by {
            assert(i < n);
            assert(pre.partners@[i]@[k] == self.partners@[i]@[k]);
            assert(pre.partners@[pre.partners@[i]@[k] as int]@.contains(i as KittyIndex));
        }
        assert(pre.genealogy_kept(&*self, n));
    }

    /// Creates a creature with random traits, owned by `caller`, and reserves the deposit for it.
    pub fn create<L: Ledger>(&mut self, ledger: &mut L, caller: AccountId) -> (r: Result<
        KittyIndex,
        KittyError,
    >)
        requires
            old(self).wf(),
            old(ledger).valid(),
        ensures
            final(self).wf(),
            final(ledger).valid(),
            old(self).count() == KittyIndex::MAX ==> r == Err::<KittyIndex, KittyError>(
                KittyError::KittiesCountOverflow,
            ),
            old(self).count() < KittyIndex::MAX && !old(ledger).can_reserve(
                caller,
                old(self).deposit_value(),
            ) ==> r == Err::<KittyIndex, KittyError>(KittyError::InsufficientDeposit),
            old(self).count() < KittyIndex::MAX && old(ledger).can_reserve(
                caller,
                old(self).deposit_value(),
            ) ==> r == Ok::<KittyIndex, KittyError>(old(self).count() as KittyIndex),
            r is Err ==> *final(self) == *old(self) && *final(ledger) == *old(ledger),
            r matches Ok(id) ==> Self::created(*old(self), *final(self), caller, id),
            r is Ok ==> reserve_added(*old(ledger), *final(ledger), caller, old(self).deposit_value()),
    {
        let id = match self.next_kitty_id() {
            Ok(id) => id,
            Err(e) => return Err(e),
        };
        if ledger.reserve(caller, self.deposit).is_err() {
            return Err(KittyError::InsufficientDeposit);
        }
        let dna = self.draw_random(caller);
        proof {
            Self::lemma_same_tables(*old(self), *self);
        }
        self.insert_kitty(caller, id, Kitty(dna));
        let ghost mid = *self;
        self.events.push(KittyEvent::Created(caller, id));
        proof {
            Self::lemma_same_tables(mid, *self);
            let pre = *old(self);
            assert(self.event_log() == pre.event_log().push(KittyEvent::Created(caller, id)));
            assert(pre.genealogy_kept(&*self, pre.count()));
        }
        Ok(id)
    }

    /// Moves creature `kitty_id` from `caller`, its owner, to `to`, and moves the deposit with it.
    pub fn transfer<L: Ledger>(
        &mut self,
        ledger: &mut L,
        caller: AccountId,
        to: AccountId,
        kitty_id: KittyIndex,
    ) -> (r: Result<(), KittyError>)
        requires
            old(self).wf(),
            old(ledger).valid(),
        ensures
            final(self).wf(),
            final(ledger).valid(),
            kitty_id >= old(self).count() ==> r == Err::<(), KittyError>(KittyError::InvalidKittyId),
            kitty_id < old(self).count() && old(self).owner(kitty_id as int) != caller ==> r == Err::<
                (),
                KittyError,
            >(KittyError::NotValidOwner),
            kitty_id < old(self).count() && old(self).owner(kitty_id as int) == caller && caller
                == to ==> r == Err::<(), KittyError>(KittyError::NotValidReceiver),
            kitty_id < old(self).count() && old(self).owner(kitty_id as int) == caller && caller
                != to ==> if old(ledger).can_reserve(to, old(self).deposit_value()) {
                r is Ok
            } else {
                r == Err::<(), KittyError>(KittyError::InsufficientDeposit)
            },
            r is Err ==> *final(self) == *old(self) && *final(ledger) == *old(ledger),
            r is Ok ==> Self::transferred(*old(self), *final(self), caller, to, kitty_id),
            r is Ok ==> final(ledger).reserved(to) == old(ledger).reserved(to)
                + old(self).deposit_value(),
            r is Ok ==> final(ledger).reserved(caller) == after_unreserve(
                old(ledger).reserved(caller),
                old(self).deposit_value() as nat,
            ),
            r is Ok ==> forall|a: AccountId|
                a != caller && a != to ==> #[trigger] final(ledger).reserved(a) == old(ledger).reserved(a),
    {
        if kitty_id as usize >= self.owners.len() {
            return Err(KittyError::InvalidKittyId);
        }
        let owner = self.owners[kitty_id as usize];
        if owner != caller {
            return Err(KittyError::NotValidOwner);
        }
        if caller == to {
            return Err(KittyError::NotValidReceiver);
        }
        if ledger.reserve(to, self.deposit).is_err() {
            return Err(KittyError::InsufficientDeposit);
        }
        let ghost pre = *old(self);
        let ghost n = pre.kitties@.len();
        proof {
            assert(owned_in(pre.owned@, pre.owners@[kitty_id as int]).contains(kitty_id));
        }
        let removed = self.remove_kitty_from_owner(caller, kitty_id);
        if removed.is_some() {
            ledger.unreserve(caller, self.deposit);
        }
        let ghost k = removed->Some_0;
        self.add_kitty_to_owner(to, kitty_id);
        self.owners.set(kitty_id as usize, to);
        let ghost mid = *self;
        self.events.push(KittyEvent::Transferred(caller, to, kitty_id));
        proof {
            let from_list = owned_in(pre.owned@, caller);
            let to_list = owned_in(pre.owned@, to);
            assert(owned_in(self.owned@, caller) == from_list.remove(k as int));
            assert(owned_in(self.owned@, to) == to_list.push(kitty_id));
            assert forall|j: int| 0 <= j < from_list.len() && j != k implies from_list[j]
                != kitty_id by {
                assert(from_list.no_duplicates());
            }
            assert forall|j: int| 0 <= j < to_list.len() implies to_list[j] != kitty_id by {
                assert(pre.owners@[to_list[j] as int] == to);
            }
            assert forall|i: int| 0 <= i < n implies #[trigger] owned_in(
                self.owned@,
                self.owners@[i],
            ).contains(i as KittyIndex) by {
                if i != kitty_id as int {
                    let a = pre.owners@[i];
                    assert(owned_in(pre.owned@, a).contains(i as KittyIndex));
                    if a == caller {
                        let m = choose|m: int| 0 <= m < from_list.len() && from_list[m] == i as KittyIndex;
                        if m < k {
                            assert(from_list.remove(k as int)[m] == i as KittyIndex);
                        } else {
                            assert(from_list.remove(k as int)[m - 1] == i as KittyIndex);
                        }
                    } else if a == to {
                        assert(to_list.push(kitty_id).contains(i as KittyIndex));
                    }
                } else {
                    assert(to_list.push(kitty_id)[to_list.len() as int] == kitty_id);
                }
            }
            assert forall|a: AccountId, j: int|
                0 <= j < owned_in(self.owned@, a).len() implies (#[trigger] owned_in(
                self.owned@,
                a,
            )[j]) < n && self.owners@[owned_in(self.owned@, a)[j] as int] == a by {
                if a == caller {
                    if j < k {
                        assert(owned_in(self.owned@, a)[j] == from_list[j]);
                    } else {
                        assert(owned_in(self.owned@, a)[j] == from_list[j + 1]);
                    }
                } else if a == to {
                    if j < to_list.len() {
                        assert(owned_in(self.owned@, a)[j] == to_list[j]);
                    }
                } else {
                    assert(owned_in(self.owned@, a)[j] == owned_in(pre.owned@, a)[j]);
                }
            }
            assert forall|a: AccountId| #[trigger] owned_in(self.owned@, a).no_duplicates() by {
                if a == caller {
                    assert(from_list.no_duplicates());
                    assert forall|x: int, y: int|
                        0 <= x < from_list.len() - 1 && 0 <= y < from_list.len() - 1 && x != y implies
                        from_list.remove(k as int)[x] != from_list.remove(k as int)[y] by {
                        let xx = if x < k { x } else { x + 1 };
                        let yy = if y < k { y } else { y + 1 };
                        assert(from_list.remove(k as int)[x] == from_list[xx]);
                        assert(from_list.remove(k as int)[y] == from_list[yy]);
                    }
                } else if a == to {
                    assert(to_list.no_duplicates());
                    assert forall|x: int, y: int|
                        0 <= x < to_list.len() + 1 && 0 <= y < to_list.len() + 1 && x != y implies
                        to_list.push(kitty_id)[x] != to_list.push(kitty_id)[y] by {}
                }
            }
            assert(self.wf());
            Self::lemma_same_tables(mid, *self);
            assert(pre.genealogy_kept(&*self, n));
            assert(pre.owned_by(caller)[k as int] == kitty_id);
            assert forall|a: AccountId| a != caller && a != to implies #[trigger] self.owned_by(a)
                == pre.owned_by(a) by {
                assert(owned_in(mid.owned@, a) == owned_in(pre.owned@, a));
            }
        }
        Ok(())
    }

    /// Writes the genealogy of a newly bred creature `id`: its parents, the partnership of
    /// the parents, its siblings, and its place among the parents' children.
    ///
    /// Existing children of either parent gain `id` as a sibling; a creature that is a child of
    /// both gains it twice, which sibling lists tolerate.
    fn record_breeding(&mut self, parent_1: KittyIndex, parent_2: KittyIndex, id: KittyIndex)
        requires
            old(self).wf(),
            parent_1 != parent_2,
            parent_1 < id,
            parent_2 < id,
            id as int == old(self).count() - 1,
            old(self).children_of(id as int) == Seq::<KittyIndex>::empty(),
            old(self).partners_of(id as int) == Seq::<KittyIndex>::empty(),
        ensures
            final(self).wf(),
            final(self).kitties == old(self).kitties,
            final(self).owners == old(self).owners,
            final(self).owned == old(self).owned,
            final(self).events == old(self).events,
            final(self).deposit == old(self).deposit,
            final(self).seed == old(self).seed,
            final(self).draws == old(self).draws,
            final(self).parents_of(id as int) == Some((parent_1, parent_2)),
            final(self).children_of(parent_1 as int) == old(self).children_of(parent_1 as int).push(id),
            final(self).children_of(parent_2 as int) == old(self).children_of(parent_2 as int).push(id),
            final(self).children_of(id as int) == Seq::<KittyIndex>::empty(),
            final(self).siblings_of(id as int) == old(self).children_of(parent_1 as int) + old(self).children_of(parent_2 as int),
            final(self).partners_of(id as int) == Seq::<KittyIndex>::empty(),
            old(self).partners_of(parent_1 as int).contains(parent_2) ==> final(self).partners_of(parent_1 as int)
                == old(self).partners_of(parent_1 as int) && final(self).partners_of(parent_2 as int) == old(self).partners_of(parent_2 as int),
            !old(self).partners_of(parent_1 as int).contains(parent_2) ==> final(self).partners_of(parent_1 as int)
                == old(self).partners_of(parent_1 as int).push(parent_2) && final(self).partners_of(parent_2 as int)
                == old(self).partners_of(parent_2 as int).push(parent_1),
            forall|j: int|
                0 <= j < id ==> #[trigger] final(self).parents_of(j) == old(self).parents_of(j),
            forall|j: int|
                0 <= j < id && j != parent_1 && j != parent_2 ==> #[trigger] final(self).children_of(j) == old(
                    self).children_of(j),
            forall|j: int|
                0 <= j < id && j != parent_1 && j != parent_2 ==> #[trigger] final(self).partners_of(j) == old(
                    self).partners_of(j),
            forall|c: int, x: KittyIndex|
                0 <= c < id ==> (#[trigger] final(self).siblings_of(c).contains(x) <==> (old(self).siblings_of(c).contains(x) || (x == id && (old(self).children_of(
                    parent_1 as int,
                ).contains(c as KittyIndex) || old(self).children_of(parent_2 as int).contains(
                    c as KittyIndex,
                ))))),
    {
        let ghost pre = *old(self);
        let ghost n = pre.kitties@.len();
        self.parents.set(id as usize, Some((parent_1, parent_2)));
        proof {
            if pre.partners@[parent_2 as int]@.contains(parent_1) {
                let k = choose|k: int|
                    0 <= k < pre.partners@[parent_2 as int]@.len() && pre.partners@[parent_2 as int]@[k] == parent_1;
                assert(pre.partners@[pre.partners@[parent_2 as int]@[k] as int]@.contains(parent_2));
            }
        }
        record_partners(&mut self.partners, parent_1, parent_2);
        let mut new_siblings: Vec<KittyIndex> = Vec::new();
        link_siblings(&mut self.siblings, &self.children[parent_1 as usize], id, &mut new_siblings);
        let ghost mid_siblings = self.siblings@;
        link_siblings(&mut self.siblings, &self.children[parent_2 as usize], id, &mut new_siblings);
        proof {
            assert forall|c: int, x: KittyIndex| 0 <= c < n implies (
            #[trigger] self.siblings@[c]@.contains(x) <==> (pre.siblings@[c]@.contains(x) || (x
                == id && (pre.children@[parent_1 as int]@.contains(c as KittyIndex)
                || pre.children@[parent_2 as int]@.contains(c as KittyIndex))))) by {
                assert(mid_siblings[c]@.contains(x) <==> (pre.siblings@[c]@.contains(x) || (x == id
                    && pre.children@[parent_1 as int]@.contains(c as KittyIndex))));
            }
        }
        self.siblings.set(id as usize, new_siblings);
        self.children[parent_1 as usize].push(id);
        self.children[parent_2 as usize].push(id);
        proof {
            assert(self.siblings@[id as int]@ == pre.children@[parent_1 as int]@
                + pre.children@[parent_2 as int]@);
            assert forall|i: int, k: int|
                0 <= i < n && 0 <= k < self.children@[i]@.len() implies (
                #[trigger] self.children@[i]@[k]) < n by {
                if (i == parent_1 || i == parent_2) && k == pre.children@[i]@.len() {
                } else {
                    assert(self.children@[i]@[k] == pre.children@[i]@[k]);
                }
            }
            let pa = pre.partners@[parent_1 as int]@;
            let pb = pre.partners@[parent_2 as int]@;
            if !pa.contains(parent_2) {
                assert(!pb.contains(parent_1));
                assert forall|i: int| 0 <= i < n implies (
                #[trigger] self.partners@[i]@).no_duplicates() by {
                    if i == parent_1 {
                        assert(pa.no_duplicates());
                        assert forall|x: int, y: int|
                            0 <= x < pa.len() + 1 && 0 <= y < pa.len() + 1 && x != y implies pa.push(
                            parent_2,
                        )[x] != pa.push(parent_2)[y] by {}
                    } else if i == parent_2 {
                        assert(pb.no_duplicates());
                        assert forall|x: int, y: int|
                            0 <= x < pb.len() + 1 && 0 <= y < pb.len() + 1 && x != y implies pb.push(
                            parent_1,
                        )[x] != pb.push(parent_1)[y] by {}
                    }
                }
                assert forall|i: int, k: int|
                    0 <= i < n && 0 <= k < self.partners@[i]@.len() implies (
                    #[trigger] self.partners@[i]@[k]) < n && self.partners@[self.partners@[i]@[k] as int]@.contains(
                    i as KittyIndex,
                ) by {
                    if i == parent_1 && k == pa.len() {
                        assert(self.partners@[parent_2 as int]@ == pb.push(parent_1));
                        assert(self.partners@[parent_2 as int]@[pb.len() as int] == parent_1);
                    } else if i == parent_2 && k == pb.len() {
                        assert(self.partners@[parent_1 as int]@[pa.len() as int] == parent_2);
                    } else {
                        let e = pre.partners@[i]@[k];
                        assert(self.partners@[i]@[k] == e);
                        assert(pre.partners@[e as int]@.contains(i as KittyIndex));
                        let m = choose|m: int|
                            0 <= m < pre.partners@[e as int]@.len() && pre.partners@[e as int]@[m]
                                == i as KittyIndex;
                        assert(self.partners@[e as int]@[m] == i as KittyIndex);
                    }
                }
            }
            assert(self.wf());
        }
    }

    /// Breeds `kitty_id_1` with `kitty_id_2`: the child, owned by `caller`, takes each trait bit
    /// from one parent or the other as a random selector decides, and the deposit for it is
    /// reserved.
    pub fn breed<L: Ledger>(
        &mut self,
        ledger: &mut L,
        caller: AccountId,
        kitty_id_1: KittyIndex,
        kitty_id_2: KittyIndex,
    ) -> (r: Result<KittyIndex, KittyError>)
        requires
            old(self).wf(),
            old(ledger).valid(),
        ensures
            final(self).wf(),
            final(ledger).valid(),
            kitty_id_1 >= old(self).count() || kitty_id_2 >= old(self).count() ==> r == Err::<
                KittyIndex,
                KittyError,
            >(KittyError::InvalidKittyId),
            kitty_id_1 < old(self).count() && kitty_id_1 == kitty_id_2 ==> r == Err::<
                KittyIndex,
                KittyError,
            >(KittyError::RequireDifferentParent),
            kitty_id_1 < old(self).count() && kitty_id_2 < old(self).count() && kitty_id_1
                != kitty_id_2 && old(self).count() == KittyIndex::MAX ==> r == Err::<
                KittyIndex,
                KittyError,
            >(KittyError::KittiesCountOverflow),
            kitty_id_1 < old(self).count() && kitty_id_2 < old(self).count() && kitty_id_1
                != kitty_id_2 && old(self).count() < KittyIndex::MAX ==> if old(ledger).can_reserve(
                caller,
                old(self).deposit_value(),
            ) {
                r == Ok::<KittyIndex, KittyError>(old(self).count() as KittyIndex)
            } else {
                r == Err::<KittyIndex, KittyError>(KittyError::InsufficientDeposit)
            },
            r is Err ==> *final(self) == *old(self) && *final(ledger) == *old(ledger),
            r matches Ok(id) ==> Self::bred(
                *old(self),
                *final(self),
                caller,
                kitty_id_1,
                kitty_id_2,
                id,
            ),
            r is Ok ==> reserve_added(*old(ledger), *final(ledger), caller, old(self).deposit_value()),
    {
        let n = self.kitties.len();
        if kitty_id_1 as usize >= n || kitty_id_2 as usize >= n {
            return Err(KittyError::InvalidKittyId);
        }
        if kitty_id_1 == kitty_id_2 {
            return Err(KittyError::RequireDifferentParent);
        }
        let id = match self.next_kitty_id() {
            Ok(id) => id,
            Err(e) => return Err(e),
        };
        if ledger.reserve(caller, self.deposit).is_err() {
            return Err(KittyError::InsufficientDeposit);
        }
        proof {
            assert(reserve_added(*old(ledger), *ledger, caller, self.deposit));
        }
        let selector = self.draw_random(caller);
        let kitty = combine_kitties(
            &self.kitties[kitty_id_1 as usize],
            &self.kitties[kitty_id_2 as usize],
            &selector,
        );
        let ghost s0 = *self;
        proof {
            Self::lemma_same_tables(*old(self), *self);
        }
        self.insert_kitty(caller, id, kitty);
        let ghost s1 = *self;
        self.record_breeding(kitty_id_1, kitty_id_2, id);
        let ghost s2 = *self;
        self.events.push(KittyEvent::Breeded(caller, kitty_id_1, kitty_id_2, id));
        proof {
            let pre = *old(self);
            Self::lemma_same_tables(s2, *self);
            assert forall|j: int| 0 <= j < pre.count() implies #[trigger] self.parents_of(j)
                == pre.parents_of(j) by {
                assert(s2.parents_of(j) == s1.parents_of(j));
                assert(s1.parents_of(j) == s0.parents_of(j));
            }
            assert forall|j: int|
                0 <= j < pre.count() && j != kitty_id_1 && j != kitty_id_2 implies #[trigger] self.children_of(
                j,
            ) == pre.children_of(j) by {
                assert(s2.children_of(j) == s1.children_of(j));
                assert(s1.children_of(j) == s0.children_of(j));
            }
            assert forall|j: int|
                0 <= j < pre.count() && j != kitty_id_1 && j != kitty_id_2 implies #[trigger] self.partners_of(
                j,
            ) == pre.partners_of(j) by {
                assert(s2.partners_of(j) == s1.partners_of(j));
                assert(s1.partners_of(j) == s0.partners_of(j));
            }
            assert forall|c: int, x: KittyIndex| 0 <= c < pre.count() implies (
            #[trigger] self.siblings_of(c).contains(x) <==> (pre.siblings_of(c).contains(x) || (x
                == id && (pre.children_of(kitty_id_1 as int).contains(c as KittyIndex)
                || pre.children_of(kitty_id_2 as int).contains(c as KittyIndex))))) by {
                assert(s1.siblings_of(c) == s0.siblings_of(c));
                assert(s2.siblings_of(c).contains(x) <==> (s1.siblings_of(c).contains(x) || (x
                    == id && (s1.children_of(kitty_id_1 as int).contains(c as KittyIndex)
                    || s1.children_of(kitty_id_2 as int).contains(c as KittyIndex)))));
            }
            assert(s1.children_of(kitty_id_1 as int) == s0.children_of(kitty_id_1 as int));
            assert(s1.children_of(kitty_id_2 as int) == s0.children_of(kitty_id_2 as int));
            assert(s1.partners_of(kitty_id_1 as int) == s0.partners_of(kitty_id_1 as int));
            assert(s1.partners_of(kitty_id_2 as int) == s0.partners_of(kitty_id_2 as int));
            assert(self.event_log() == pre.event_log().push(
                KittyEvent::Breeded(caller, kitty_id_1, kitty_id_2, id),
            ));
            assert forall|j: int| 0 <= j < pre.count() implies #[trigger] self.dna(j) == pre.dna(j)
                by {
                assert(s1.dna(j) == s0.dna(j));
            }
            assert forall|j: int| 0 <= j < pre.count() implies #[trigger] self.owner(j)
                == pre.owner(j) by {
                assert(s1.owner(j) == s0.owner(j));
            }
            assert forall|a: AccountId| a != caller implies #[trigger] self.owned_by(a)
                == pre.owned_by(a) by {
                assert(s1.owned_by(a) == s0.owned_by(a));
                assert(s0.owned_by(a) == pre.owned_by(a));
            }
            assert(s0.owned_by(caller) == pre.owned_by(caller));
        }
        Ok(id)
    }
    /// The identifiers that `create` hands out, starting from an empty registry, are 0, 1, 2,
    /// ... in the order of the calls: none skipped, none repeated.
    pub proof fn lemma_create_ids_sequential(
        states: Seq<KittyRegistry>,
        callers: Seq<AccountId>,
        ids: Seq<KittyIndex>,
    )
        requires
            states.len() == ids.len() + 1,
            callers.len() == ids.len(),
            states[0].count() == 0,
            forall|i: int|
                0 <= i < ids.len() ==> #[trigger] Self::created(
                    states[i],
                    states[i + 1],
                    callers[i],
                    ids[i],
                ),
        ensures
            forall|i: int| 0 <= i < ids.len() ==> #[trigger] ids[i] == i,
            states.last().count() == ids.len(),
    {
        assert forall|i: int| 0 <= i <= ids.len() implies #[trigger] states[i].count() == i by {
            Self::lemma_create_count(states, callers, ids, i);
        }
        assert forall|i: int| 0 <= i < ids.len() implies #[trigger] ids[i] == i by {
            assert(Self::created(states[i], states[i + 1], callers[i], ids[i]));
            assert(states[i].count() == i);
        }
    }

    proof fn lemma_create_count(
        states: Seq<KittyRegistry>,
        callers: Seq<AccountId>,
        ids: Seq<KittyIndex>,
        i: int,
    )
        requires
            states.len() == ids.len() + 1,
            callers.len() == ids.len(),
            states[0].count() == 0,
            forall|k: int|
                0 <= k < ids.len() ==> #[trigger] Self::created(
                    states[k],
                    states[k + 1],
                    callers[k],
                    ids[k],
                ),
            0 <= i <= ids.len(),
        ensures
            states[i].count() == i,
        decreases i,
    {
        if i > 0 {
            let k = i - 1;
            Self::lemma_create_count(states, callers, ids, k);
            assert(Self::created(states[k], states[k + 1], callers[k], ids[k]));
        }
    }

    /// Breeding the same pair twice records each parent exactly once among the other's
    /// partners.
    pub proof fn lemma_partners_recorded_once(
        s0: KittyRegistry,
        s1: KittyRegistry,
        s2: KittyRegistry,
        owner_1: AccountId,
        owner_2: AccountId,
        parent_1: KittyIndex,
        parent_2: KittyIndex,
        id_1: KittyIndex,
        id_2: KittyIndex,
    )
        requires
            s0.wf(),
            s1.wf(),
            s2.wf(),
            Self::bred(s0, s1, owner_1, parent_1, parent_2, id_1),
            Self::bred(s1, s2, owner_2, parent_1, parent_2, id_2),
        ensures
            s2.partners_of(parent_1 as int).to_multiset().count(parent_2) == 1,
            s2.partners_of(parent_2 as int).to_multiset().count(parent_1) == 1,
    {
        broadcast use vstd::seq_lib::to_multiset_contains;

        let a = s1.partners_of(parent_1 as int);
        let b = s1.partners_of(parent_2 as int);
        if !a.contains(parent_2) {
            assert(a.push(parent_2)[a.len() as int] == parent_2);
            assert(b.push(parent_1)[b.len() as int] == parent_1);
        } else {
            assert(s1.partners_of(parent_1 as int).contains(parent_2));
            let k = choose|k: int| 0 <= k < a.len() && a[k] == parent_2;
            assert(s1.partners@[s1.partners@[parent_1 as int]@[k] as int]@.contains(parent_1));
        }
        assert(s2.partners_of(parent_1 as int).contains(parent_2));
        assert(s2.partners_of(parent_2 as int).contains(parent_1));
        assert(s2.partners@[parent_1 as int]@.no_duplicates());
        assert(s2.partners@[parent_2 as int]@.no_duplicates());
        s2.partners_of(parent_1 as int).lemma_multiset_has_no_duplicates();
        s2.partners_of(parent_2 as int).lemma_multiset_has_no_duplicates();
    }
}

} // verus!
