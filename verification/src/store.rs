//! The counter lifecycle manager: a store of records keyed by derived
//! location.  A record is created exactly once per owner (Initialize) and
//! overwritten thereafter only by its owner (Update); each successful
//! transition returns exactly one notification.
//!
//! The store is modelled as a map from derived location to the record's
//! mathematical shape, and both operations are specified as pure transition
//! functions over that map.

use vstd::prelude::*;

use crate::errors::CounterError;
use crate::events::CustomEvent;
use crate::events::initialized_message;
use crate::events::updated_message;
use crate::identity::Identity;
use crate::location::Address;
use crate::location::derive_location;
use crate::location::derived_addr;
use crate::location::spec_derived;

verus! {

/// The persisted counter value: an 8-bit unsigned counter.
#[derive(Clone, Copy, Debug)]
pub struct Counter {
    pub count: u8,
}

/// One persisted record: its derived location, the bump nonce that
/// witnesses the derivation, the owner fixed at creation, and the counter.
#[derive(Clone, Copy, Debug)]
pub struct Record {
    pub location: Address,
    pub bump: u8,
    pub owner: Identity,
    pub counter: Counter,
}

/// The mathematical shape of one record: its owner and its value.
pub struct RecordModel {
    pub owner: Seq<u8>,
    pub count: u8,
}

/// The authenticated context of an Initialize call: the host has already
/// verified that the caller signed as `signer`.
pub struct InitializeCount {
    pub signer: Identity,
}

/// The authenticated context of an Update call: the host has already
/// verified that the caller signed as `signer`.
pub struct UpdateCount {
    pub signer: Identity,
}

/// The mathematical shape of a record.
pub open spec fn rec_model(r: Record) -> RecordModel {
    RecordModel { owner: r.owner@, count: r.counter.count }
}

/// The map a sequence of records denotes: each record under its location.
pub open spec fn records_model(s: Seq<Record>) -> Map<Seq<u8>, RecordModel>
    decreases s.len(),
{
    if s.len() == 0 {
        Map::empty()
    } else {
        records_model(s.drop_last()).insert(s.last().location@, rec_model(s.last()))
    }
}

/// No two records occupy one location.
pub open spec fn locs_unique(s: Seq<Record>) -> bool {
    forall|i: int, j: int|
        0 <= i < j < s.len() ==> (#[trigger] s[i]).location@ != (#[trigger] s[j]).location@
}

/// Every record sits at the location derived from its own owner, with the
/// bump that witnesses that derivation.
pub open spec fn derivation_keyed(s: Seq<Record>) -> bool {
    forall|i: int|
        0 <= i < s.len() ==> spec_derived((#[trigger] s[i]).owner@) == Some(
            (s[i].location@, s[i].bump),
        )
}

/// The error a call of Initialize reports on the given store model, if any.
pub open spec fn init_error(m: Map<Seq<u8>, RecordModel>, owner: Seq<u8>) -> Option<CounterError> {
    if spec_derived(owner) is None {
        Some(CounterError::DerivationFailed)
    } else if m.contains_key(derived_addr(owner)) {
        Some(CounterError::AlreadyInitialized)
    } else {
        None
    }
}

/// The store model after a call of Initialize: a record with value 0 at the
/// owner's derived location on success, the model untouched on failure.
pub open spec fn init_next(m: Map<Seq<u8>, RecordModel>, owner: Seq<u8>) -> Map<
    Seq<u8>,
    RecordModel,
> {
    if init_error(m, owner) is None {
        m.insert(derived_addr(owner), RecordModel { owner: owner, count: 0 })
    } else {
        m
    }
}

/// The error a call of Update reports on the given store model, if any.
pub open spec fn update_error(
    m: Map<Seq<u8>, RecordModel>,
    owner: Seq<u8>,
    new_count: u8,
) -> Option<CounterError> {
    if spec_derived(owner) is None {
        Some(CounterError::DerivationFailed)
    } else if !m.contains_key(derived_addr(owner)) {
        Some(CounterError::NotInitialized)
    } else if m[derived_addr(owner)].owner != owner {
        Some(CounterError::NotOwner)
    } else {
        None
    }
}

/// The store model after a call of Update: the record at the owner's
/// derived location wholly overwritten with `new_count` on success, the
/// model untouched on failure.
pub open spec fn update_next(
    m: Map<Seq<u8>, RecordModel>,
    owner: Seq<u8>,
    new_count: u8,
) -> Map<Seq<u8>, RecordModel> {
    if update_error(m, owner, new_count) is None {
        m.insert(derived_addr(owner), RecordModel { owner: owner, count: new_count })
    } else {
        m
    }
}

/// The record store.  The host serializes operations on it; each call below
/// is one atomic unit.
pub struct CounterStore {
    records: Vec<Record>,
}

impl View for CounterStore {
    type V = Map<Seq<u8>, RecordModel>;

    closed spec fn view(&self) -> Map<Seq<u8>, RecordModel> {
        records_model(self.records@)
    }
}

impl CounterStore {
    /// Well-formedness: one record per location, each at the location its
    /// own owner derives.
    pub closed spec fn wf(&self) -> bool {
        locs_unique(self.records@) && derivation_keyed(self.records@)
    }

    /// An empty store: no record exists at any location.
    pub fn new() -> (r: CounterStore)
        ensures
            r.wf(),
            r@ == Map::<Seq<u8>, RecordModel>::empty(),
    {
        let r = CounterStore { records: Vec::new() };
        proof {
            assert(r@ =~= Map::<Seq<u8>, RecordModel>::empty());
        }
        r
    }

    /// The index of the record at `addr`, if one exists.
    fn find_index(&self, addr: &Address) -> (r: Option<usize>)
        ensures
            match r {
                Some(i) => i < self.records@.len() && self.records@[i as int].location@ == addr@,
                None => forall|i: int|
                    0 <= i < self.records@.len() ==> (#[trigger] self.records@[i]).location@
                        != addr@,
            },
    {
        let mut i: usize = 0;
        while i < self.records.len()
            invariant
                i <= self.records@.len(),
                forall|j: int| 0 <= j < i ==> (#[trigger] self.records@[j]).location@ != addr@,
            decreases self.records@.len() - i,
        {
            if self.records[i].location.same_as(addr) {
                return Some(i);
            }
            i += 1;
        }
        None
    }
}

/// A key is in the model exactly when some record carries it as location.
proof fn lemma_model_contains(s: Seq<Record>, k: Seq<u8>)
    ensures
        records_model(s).contains_key(k) <==> exists|i: int|
            0 <= i < s.len() && (#[trigger] s[i]).location@ == k,
    decreases s.len(),
{
    if s.len() == 0 {
    } else {
        let pre = s.drop_last();
        lemma_model_contains(pre, k);
        if s.last().location@ == k {
            assert(s[s.len() - 1].location@ == k);
        } else {
            if records_model(pre).contains_key(k) {
                let i = choose|i: int| 0 <= i < pre.len() && (#[trigger] pre[i]).location@ == k;
                assert(s[i].location@ == k);
            }
            if exists|i: int| 0 <= i < s.len() && (#[trigger] s[i]).location@ == k {
                let i = choose|i: int| 0 <= i < s.len() && (#[trigger] s[i]).location@ == k;
                assert(i < s.len() - 1);
                assert(pre[i].location@ == k);
            }
        }
    }
}

/// With unique locations, the model maps a record's location to exactly
/// that record's shape.
proof fn lemma_model_value(s: Seq<Record>, i: int)
    requires
        locs_unique(s),
        0 <= i < s.len(),
    ensures
        records_model(s).contains_key(s[i].location@),
        records_model(s)[s[i].location@] == rec_model(s[i]),
    decreases s.len(),
{
    let pre = s.drop_last();
    if i == s.len() - 1 {
    } else {
        assert(locs_unique(pre)) by {
            assert forall|a: int, b: int|
                0 <= a < b < pre.len() implies (#[trigger] pre[a]).location@ != (
            #[trigger] pre[b]).location@ by {
                assert(pre[a] == s[a]);
                assert(pre[b] == s[b]);
            }
        }
        lemma_model_value(pre, i);
        assert(pre[i] == s[i]);
        assert(s[i].location@ != s.last().location@);
    }
}

/// Appending a record inserts its shape at its location.
proof fn lemma_model_push(s: Seq<Record>, r: Record)
    ensures
        records_model(s.push(r)) == records_model(s).insert(r.location@, rec_model(r)),
{
    assert(s.push(r).drop_last() =~= s);
    assert(s.push(r).last() == r);
}

/// Overwriting the record at index `i` with one at the same location
/// re-inserts that location in the model.
proof fn lemma_model_update(s: Seq<Record>, i: int, r: Record)
    requires
        locs_unique(s),
        0 <= i < s.len(),
        r.location@ == s[i].location@,
    ensures
        records_model(s.update(i, r)) == records_model(s).insert(r.location@, rec_model(r)),
    decreases s.len(),
{
    let k = r.location@;
    let pre = s.drop_last();
    if i == s.len() - 1 {
        assert(s.update(i, r).drop_last() =~= pre);
        assert(s.update(i, r).last() == r);
        assert(records_model(pre).insert(k, rec_model(s.last())).insert(k, rec_model(r)) =~= records_model(
            pre,
        ).insert(k, rec_model(r)));
    } else {
        assert(locs_unique(pre)) by {
            assert forall|a: int, b: int|
                0 <= a < b < pre.len() implies (#[trigger] pre[a]).location@ != (
            #[trigger] pre[b]).location@ by {
                assert(pre[a] == s[a]);
                assert(pre[b] == s[b]);
            }
        }
        assert(s.update(i, r).drop_last() =~= pre.update(i, r));
        assert(pre[i] == s[i]);
        lemma_model_update(pre, i, r);
        let last = s.last();
        assert(s.update(i, r).last() == last);
        assert(s[i].location@ != last.location@);
        assert(records_model(pre).insert(k, rec_model(r)).insert(last.location@, rec_model(last))
            =~= records_model(pre).insert(last.location@, rec_model(last)).insert(
            k,
            rec_model(r),
        ));
    }
}

/// Creates the caller's record, with value 0, at the caller's derived
/// location.  Fails with `AlreadyInitialized` when the location is already
/// occupied, with `DerivationFailed` when no safe address exists; a failed
/// call changes nothing.  Exactly one notification comes with success.
pub fn initialize_counter(store: &mut CounterStore, ctx: InitializeCount) -> (r: Result<
    CustomEvent,
    CounterError,
>)
    requires
        old(store).wf(),
    ensures
        final(store).wf(),
        final(store)@ == init_next(old(store)@, ctx.signer@),
        match r {
            Ok(ev) => init_error(old(store)@, ctx.signer@) is None && ev.message@
                == initialized_message(),
            Err(e) => init_error(old(store)@, ctx.signer@) == Some(e),
        },
{
    let (addr, bump) = match derive_location(&ctx.signer) {
        Ok(p) => p,
        Err(e) => {
            return Err(e);
        },
    };
    match store.find_index(&addr) {
        Some(i) => {
            proof {
                assert(store.records@[i as int].location@ == addr@);
                lemma_model_contains(store.records@, addr@);
            }
            Err(CounterError::AlreadyInitialized)
        },
        None => {
            proof {
                lemma_model_contains(store.records@, addr@);
            }
            let rec = Record {
                location: addr,
                bump,
                owner: ctx.signer,
                counter: Counter { count: 0 },
            };
            proof {
                lemma_model_push(store.records@, rec);
            }
            store.records.push(rec);
            proof {
                let s = store.records@;
                let pre = old(store).records@;
                assert(s =~= pre.push(rec));
                assert(locs_unique(s)) by {
                    assert forall|a: int, b: int|
                        0 <= a < b < s.len() implies (#[trigger] s[a]).location@ != (
                    #[trigger] s[b]).location@ by {
                        if b < s.len() - 1 {
                            assert(s[a] == pre[a]);
                            assert(s[b] == pre[b]);
                        } else {
                            assert(s[a] == pre[a]);
                            assert(s[b] == rec);
                        }
                    }
                }
                assert(derivation_keyed(s)) by {
                    assert forall|a: int|
                        0 <= a < s.len() implies spec_derived((#[trigger] s[a]).owner@) == Some(
                        (s[a].location@, s[a].bump),
                    ) by {
                        if a < s.len() - 1 {
                            assert(s[a] == pre[a]);
                        } else {
                            assert(s[a] == rec);
                        }
                    }
                }
                assert(rec_model(rec) == RecordModel { owner: ctx.signer@, count: 0u8 });
                assert(store@ =~= init_next(old(store)@, ctx.signer@));
            }
            Ok(CustomEvent::initialized())
        },
    }
}

/// Replaces the counter value of the caller's record wholesale.  Fails with
/// `NotInitialized` when no record exists at the caller's derived location,
/// with `NotOwner` when the stored owner differs from the caller, with
/// `DerivationFailed` when no safe address exists; a failed call changes
/// nothing.  Exactly one notification comes with success.
pub fn update_counter(store: &mut CounterStore, ctx: UpdateCount, new_count: u8) -> (r: Result<
    CustomEvent,
    CounterError,
>)
    requires
        old(store).wf(),
    ensures
        final(store).wf(),
        final(store)@ == update_next(old(store)@, ctx.signer@, new_count),
        match r {
            Ok(ev) => update_error(old(store)@, ctx.signer@, new_count) is None && ev.message@
                == updated_message(),
            Err(e) => update_error(old(store)@, ctx.signer@, new_count) == Some(e),
        },
{
    let (addr, _bump) = match derive_location(&ctx.signer) {
        Ok(p) => p,
        Err(e) => {
            return Err(e);
        },
    };
    match store.find_index(&addr) {
        None => {
            proof {
                lemma_model_contains(store.records@, addr@);
            }
            Err(CounterError::NotInitialized)
        },
        Some(i) => {
            proof {
                lemma_model_value(store.records@, i as int);
            }
            let found = store.records[i];
            if !found.owner.same_as(&ctx.signer) {
                Err(CounterError::NotOwner)
            } else {
                let rec = Record {
                    location: found.location,
                    bump: found.bump,
                    owner: found.owner,
                    counter: Counter { count: new_count },
                };
                proof {
                    lemma_model_update(store.records@, i as int, rec);
                }
                let slot = &mut store.records[i];
                *slot = rec;
                proof {
                    let s = store.records@;
                    let pre = old(store).records@;
                    assert(s =~= pre.update(i as int, rec));
                    assert(locs_unique(s)) by {
                        assert forall|a: int, b: int|
                            0 <= a < b < s.len() implies (#[trigger] s[a]).location@ != (
                        #[trigger] s[b]).location@ by {
                            assert(pre[a].location@ != pre[b].location@);
                            if a == i {
                                assert(s[a] == rec);
                                assert(s[b] == pre[b]);
                            } else if b == i {
                                assert(s[a] == pre[a]);
                                assert(s[b] == rec);
                            } else {
                                assert(s[a] == pre[a]);
                                assert(s[b] == pre[b]);
                            }
                        }
                    }
                    assert(derivation_keyed(s)) by {
                        assert forall|a: int|
                            0 <= a < s.len() implies spec_derived((#[trigger] s[a]).owner@) == Some(
                            (s[a].location@, s[a].bump),
                        ) by {
                            if a == i {
                                assert(s[a] == rec);
                                assert(pre[a].owner@ == rec.owner@);
                            } else {
                                assert(s[a] == pre[a]);
                            }
                        }
                    }
                    assert(rec_model(rec) == RecordModel {
                        owner: ctx.signer@,
                        count: new_count,
                    });
                    assert(store@ =~= update_next(old(store)@, ctx.signer@, new_count));
                }
                Ok(CustomEvent::updated())
            }
        },
    }
}

/// The counter value of the record stored for `owner`, if one exists.
pub fn get_count(store: &CounterStore, owner: &Identity) -> (r: Option<u8>)
    requires
        store.wf(),
    ensures
        match r {
            Some(c) => spec_derived(owner@) is Some && store@.contains_key(derived_addr(owner@))
                && store@[derived_addr(owner@)].count == c,
            None => spec_derived(owner@) is None || !store@.contains_key(derived_addr(owner@)),
        },
{
    let addr = match derive_location(owner) {
        Ok(p) => p.0,
        Err(_) => {
            return None;
        },
    };
    match store.find_index(&addr) {
        Some(i) => {
            proof {
                lemma_model_value(store.records@, i as int);
            }
            Some(store.records[i].counter.count)
        },
        None => {
            proof {
                lemma_model_contains(store.records@, addr@);
            }
            None
        },
    }
}

/// Creation happens at most once: after a successful Initialize for an
/// owner, a second Initialize for the same owner fails with
/// `AlreadyInitialized` and leaves the store model untouched, so the
/// record's value stays what it was.
pub proof fn lemma_initialize_at_most_once(m: Map<Seq<u8>, RecordModel>, owner: Seq<u8>)
    requires
        init_error(m, owner) is None,
    ensures
        init_error(init_next(m, owner), owner) == Some(CounterError::AlreadyInitialized),
        init_next(init_next(m, owner), owner) == init_next(m, owner),
{
}

/// A failed Initialize changes no existing record: whatever was stored at
/// any occupied location before the call is stored there after it.
pub proof fn lemma_initialize_preserves_existing(
    m: Map<Seq<u8>, RecordModel>,
    owner: Seq<u8>,
    k: Seq<u8>,
)
    requires
        m.contains_key(k),
    ensures
        init_next(m, owner).contains_key(k),
        init_next(m, owner)[k] == m[k],
{
}

/// Update before any Initialize fails with `NotInitialized` and changes
/// nothing: with no record at the owner's derived location there is nothing
/// to mutate.
pub proof fn lemma_update_before_initialize(
    m: Map<Seq<u8>, RecordModel>,
    owner: Seq<u8>,
    new_count: u8,
)
    requires
        spec_derived(owner) is Some,
        !m.contains_key(derived_addr(owner)),
    ensures
        update_error(m, owner, new_count) == Some(CounterError::NotInitialized),
        update_next(m, owner, new_count) == m,
{
}

/// Initialize then Update succeeds for the owner, and the record then holds
/// exactly the new value, under the unchanged owner.
pub proof fn lemma_initialize_then_update(
    m: Map<Seq<u8>, RecordModel>,
    owner: Seq<u8>,
    new_count: u8,
)
    requires
        init_error(m, owner) is None,
    ensures
        update_error(init_next(m, owner), owner, new_count) is None,
        update_next(init_next(m, owner), owner, new_count)[derived_addr(owner)] == (RecordModel {
            owner: owner,
            count: new_count,
        }),
{
}

/// Update never changes who owns a record: the owner stored at any occupied
/// location is the same before and after any Update call.
pub proof fn lemma_update_preserves_owners(
    m: Map<Seq<u8>, RecordModel>,
    owner: Seq<u8>,
    new_count: u8,
    k: Seq<u8>,
)
    requires
        m.contains_key(k),
    ensures
        update_next(m, owner, new_count).contains_key(k),
        update_next(m, owner, new_count)[k].owner == m[k].owner,
{
}

/// Update by an identity other than the stored owner fails with `NotOwner`
/// and changes nothing.
pub proof fn lemma_update_foreign_record(
    m: Map<Seq<u8>, RecordModel>,
    owner: Seq<u8>,
    new_count: u8,
)
    requires
        spec_derived(owner) is Some,
        m.contains_key(derived_addr(owner)),
        m[derived_addr(owner)].owner != owner,
    ensures
        update_error(m, owner, new_count) == Some(CounterError::NotOwner),
        update_next(m, owner, new_count) == m,
{
}

/// Every record of the model sits at the location its own owner derives.
pub open spec fn self_keyed(m: Map<Seq<u8>, RecordModel>) -> bool {
    forall|k: Seq<u8>| #[trigger]
        m.contains_key(k) ==> spec_derived(m[k].owner) is Some && derived_addr(m[k].owner) == k
}

/// A well-formed store is self-keyed: each stored record lies at the
/// location derived from its own owner.
pub proof fn lemma_wf_self_keyed(store: &CounterStore)
    requires
        store.wf(),
    ensures
        self_keyed(store@),
{
    assert forall|k: Seq<u8>| #[trigger] store@.contains_key(k) implies spec_derived(
        store@[k].owner,
    ) is Some && derived_addr(store@[k].owner) == k by {
        lemma_model_contains(store.records@, k);
        let i = choose|i: int|
            0 <= i < store.records@.len() && (#[trigger] store.records@[i]).location@ == k;
        lemma_model_value(store.records@, i);
    }
}

/// At most one record exists per owner: in a self-keyed store, two
/// occupied locations holding the same owner are one and the same, since
/// each is the location that owner derives.
pub proof fn lemma_one_record_per_owner(m: Map<Seq<u8>, RecordModel>, k1: Seq<u8>, k2: Seq<u8>)
    requires
        self_keyed(m),
        m.contains_key(k1),
        m.contains_key(k2),
        m[k1].owner == m[k2].owner,
    ensures
        k1 == k2,
{
}

/// In a self-keyed store, `NotOwner` demands a derivation collision: the
/// stored owner is a different identity whose derived location coincides
/// with the caller's.  Absent such a collision the branch is unreachable,
/// yet it is still checked and reported as defense in depth.
pub proof fn lemma_not_owner_needs_collision(
    m: Map<Seq<u8>, RecordModel>,
    owner: Seq<u8>,
    new_count: u8,
)
    requires
        self_keyed(m),
        update_error(m, owner, new_count) == Some(CounterError::NotOwner),
    ensures
        m[derived_addr(owner)].owner != owner,
        spec_derived(m[derived_addr(owner)].owner) is Some,
        derived_addr(m[derived_addr(owner)].owner) == derived_addr(owner),
{
    assert(m.contains_key(derived_addr(owner)));
}

} // verus!

