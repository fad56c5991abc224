//! The batch match protocol: a caller-supplied collection of slots, each
//! wanting the first loaded object whose raw name equals one of the slot's
//! candidate names. A batch pass writes each slot at most once; a slot with
//! no matching object is left unwritten, which is not a failure.
//!
//! Two strategies realize the protocol. The push pass — [`offer_object`]
//! driven once per visited object — serves platforms that can only
//! enumerate; the pull pass — [`fill_entry_pull`] over the outcomes of
//! direct lookups — serves platforms that can look a name up directly.
//! [`lemma_pull_matches_push`] states when the two converge on the same
//! slot assignments.

use vstd::prelude::*;

use crate::unix::{ObjectView, UnixObject};
use crate::util::{bytes_eq, nice_name, to_nice_name};

verus! {

/// What a slot remembers of the object written into it.
#[verifier::ext_equal]
pub ghost struct FoundView {
    /// The raw name of the object.
    pub name: Seq<u8>,
    /// The base address of the object.
    pub base_addr: usize,
}

/// The mathematical content of one slot: its candidate names, in priority
/// order, and the object written into it, if any.
#[verifier::ext_equal]
pub ghost struct SlotView {
    /// The candidate names the slot will accept, by exact equality.
    pub names: Seq<Seq<u8>>,
    /// The record of the object written into the slot, if one matched.
    pub found: Option<FoundView>,
}

/// Batch matching tests a candidate name against an object's raw name by
/// exact equality, not by the normalized comparison of single lookups.
pub open spec fn slot_matches(names: Seq<Seq<u8>>, name: Seq<u8>) -> bool {
    exists|k: int| 0 <= k < names.len() && names[k] == name
}

/// What a slot remembers of a given object.
pub open spec fn found_of(o: ObjectView) -> FoundView {
    FoundView { name: o.name, base_addr: o.base_addr }
}

/// Every slot of the map has been written.
pub open spec fn map_full(slots: Seq<SlotView>) -> bool {
    forall|i: int| 0 <= i < slots.len() ==> #[trigger] slots[i].found is Some
}

/// Position `j` holds the first of `objects` whose raw name equals one of
/// the candidates in `names`.
pub open spec fn first_slot_match(names: Seq<Seq<u8>>, objects: Seq<ObjectView>, j: int) -> bool {
    &&& 0 <= j < objects.len()
    &&& slot_matches(names, objects[j].name)
    &&& forall|k: int| 0 <= k < j ==> !slot_matches(names, #[trigger] objects[k].name)
}

/// How one batch pass over `objects` transforms a single slot: a written
/// slot is never revisited; an unwritten slot receives the first object
/// whose raw name equals one of its candidates, or stays unwritten when no
/// object matches.
pub open spec fn slot_filled(pre: SlotView, post: SlotView, objects: Seq<ObjectView>) -> bool {
    if pre.found is Some {
        post == pre
    } else {
        &&& post.names == pre.names
        &&& match post.found {
            Some(fv) => exists|j: int|
                #[trigger] first_slot_match(pre.names, objects, j) && fv == found_of(objects[j]),
            None => forall|j: int|
                0 <= j < objects.len() ==> !slot_matches(pre.names, #[trigger] objects[j].name),
        }
    }
}

/// How one batch pass over `objects` transforms a whole map, slot by slot.
pub open spec fn fill_post(pre: Seq<SlotView>, post: Seq<SlotView>, objects: Seq<ObjectView>) -> bool {
    &&& post.len() == pre.len()
    &&& forall|i: int| 0 <= i < pre.len() ==> slot_filled(#[trigger] pre[i], post[i], objects)
}

/// A slot is written at most once: a batch pass leaves every slot that was
/// already written exactly as it was, whatever objects are loaded.
pub proof fn lemma_fill_written_slot_unchanged(
    pre: Seq<SlotView>,
    post: Seq<SlotView>,
    objects: Seq<ObjectView>,
    i: int,
)
    requires
        fill_post(pre, post, objects),
        0 <= i < pre.len(),
        pre[i].found is Some,
    ensures
        post[i] == pre[i],
{
}

/// A full map needs no further work: a batch pass over any objects leaves
/// it unchanged.
pub proof fn lemma_fill_full_map_unchanged(
    pre: Seq<SlotView>,
    post: Seq<SlotView>,
    objects: Seq<ObjectView>,
)
    requires
        fill_post(pre, post, objects),
        map_full(pre),
    ensures
        post == pre,
{
    assert forall|i: int| 0 <= i < pre.len() implies post[i] == pre[i] by {
        assert(pre[i].found is Some);
    }
    assert(post =~= pre);
}

/// How offering a single object to one slot transforms it: a written slot
/// is never revisited; an unwritten slot takes the object when its raw
/// name equals one of the candidates, and is left alone otherwise.
pub open spec fn slot_offered(pre: SlotView, post: SlotView, o: ObjectView) -> bool {
    if pre.found is Some {
        post == pre
    } else if slot_matches(pre.names, o.name) {
        post.names == pre.names && post.found == Some(found_of(o))
    } else {
        post == pre
    }
}

/// How offering a single object transforms a whole map, slot by slot.
pub open spec fn offer_post(pre: Seq<SlotView>, post: Seq<SlotView>, o: ObjectView) -> bool {
    &&& post.len() == pre.len()
    &&& forall|i: int| 0 <= i < pre.len() ==> slot_offered(#[trigger] pre[i], post[i], o)
}

/// One step of the push strategy: offers one visited object to every slot
/// still unwritten. The result says whether the map is now full, so a
/// platform traversal driving this step per visit can tell its primitive
/// to stop the instant no further work remains.
pub fn offer_object<M: ObjectMap>(map: &mut M, object: &UnixObject) -> (stop: bool)
    ensures
        offer_post(old(map).map_view(), final(map).map_view(), object@),
        stop == map_full(final(map).map_view()),
{
    let ghost pre = old(map).map_view();
    let ghost ov = object@;
    let name = object.name().as_slice();
    let n = map.n_entries();
    let mut i: usize = 0;
    while i < n
        invariant
            object@ == ov,
            name@ == ov.name,
            n == pre.len(),
            i <= n,
            map.map_view().len() == pre.len(),
            forall|s: int|
                0 <= s < i ==> slot_offered(#[trigger] pre[s], map.map_view()[s], ov),
            forall|s: int| i <= s < pre.len() ==> map.map_view()[s] == #[trigger] pre[s],
        decreases n - i,
    {
        if !map.entry_is_written(i) {
            if map.entry_name_matches(i, name) {
                map.write_entry(i, object);
            }
        }
        proof {
            assert(slot_offered(pre[i as int], map.map_view()[i as int], ov));
        }
        i = i + 1;
    }
    map.is_full()
}

/// Position `k` holds the first direct lookup that resolved.
pub open spec fn first_lookup_hit(lookups: Seq<Option<ObjectView>>, k: int) -> bool {
    &&& 0 <= k < lookups.len()
    &&& lookups[k] is Some
    &&& forall|t: int| 0 <= t < k ==> (#[trigger] lookups[t]) is None
}

/// How the pull strategy transforms one slot, given what the platform's
/// direct lookups returned for its candidate names, in priority order: a
/// written slot is never revisited; an unwritten slot takes the first
/// candidate that resolved, or stays unwritten when every lookup missed.
pub open spec fn slot_pulled(pre: SlotView, post: SlotView, lookups: Seq<Option<ObjectView>>) -> bool {
    if pre.found is Some {
        post == pre
    } else {
        &&& post.names == pre.names
        &&& match post.found {
            Some(fv) => exists|k: int|
                #[trigger] first_lookup_hit(lookups, k) && (lookups[k] matches Some(ov) && fv
                    == found_of(ov)),
            None => forall|k: int| 0 <= k < lookups.len() ==> (#[trigger] lookups[k]) is None,
        }
    }
}

/// One step of the pull strategy: fills slot `i` from the outcomes of the
/// platform's direct lookups, `lookups[k]` being what the platform
/// returned for the slot's candidate `k`. A slot whose every candidate
/// failed to resolve is simply left unwritten — not an error.
pub fn fill_entry_pull<M: ObjectMap>(map: &mut M, i: usize, lookups: &Vec<Option<UnixObject>>)
    requires
        i < old(map).map_view().len(),
        lookups.deep_view().len() == old(map).map_view()[i as int].names.len(),
    ensures
        final(map).map_view().len() == old(map).map_view().len(),
        forall|j: int|
            0 <= j < old(map).map_view().len() && j != i ==> final(map).map_view()[j] == old(
                map,
            ).map_view()[j],
        slot_pulled(
            old(map).map_view()[i as int],
            final(map).map_view()[i as int],
            lookups.deep_view(),
        ),
{
    let ghost pre = old(map).map_view();
    let ghost looks = lookups.deep_view();
    if !map.entry_is_written(i) {
        let n = lookups.len();
        let mut k: usize = 0;
        let mut wrote = false;
        while k < n && !wrote
            invariant
                i < pre.len(),
                n == looks.len(),
                looks == lookups.deep_view(),
                k <= n,
                pre[i as int].found is None,
                !wrote ==> map.map_view() == pre && (forall|t: int|
                    0 <= t < k ==> (#[trigger] looks[t]) is None),
                wrote ==> {
                    &&& map.map_view().len() == pre.len()
                    &&& (forall|j: int|
                        0 <= j < pre.len() && j != i ==> map.map_view()[j] == #[trigger] pre[j])
                    &&& slot_pulled(pre[i as int], map.map_view()[i as int], looks)
                },
            decreases n - k,
        {
            match &lookups[k] {
                Some(object) => {
                    proof {
                        assert(looks[k as int] == Some(object@));
                        assert(first_lookup_hit(looks, k as int));
                    }
                    map.write_entry(i, object);
                    wrote = true;
                    proof {
                        assert(map.map_view()[i as int].found == Some(found_of(object@)));
                        assert(slot_pulled(pre[i as int], map.map_view()[i as int], looks));
                    }
                },
                None => {
                    proof {
                        assert(looks[k as int] is None);
                    }
                },
            }
            k = k + 1;
        }
        proof {
            if !wrote {
                assert(slot_pulled(pre[i as int], map.map_view()[i as int], looks));
            }
        }
    }
}

/// What a platform's direct lookups must report for the pull strategy to
/// mirror a push pass over `objects`: the lookup of candidate `k` returns
/// the first loaded object bearing exactly that name, or nothing when no
/// loaded object does.
pub open spec fn lookups_consistent(
    lookups: Seq<Option<ObjectView>>,
    names: Seq<Seq<u8>>,
    objects: Seq<ObjectView>,
) -> bool {
    &&& lookups.len() == names.len()
    &&& forall|k: int|
        0 <= k < names.len() ==> match #[trigger] lookups[k] {
            Some(ov) => exists|j: int|
                #![auto]
                0 <= j < objects.len() && objects[j].name == names[k] && ov == objects[j] && (
                forall|t: int| 0 <= t < j ==> objects[t].name != names[k]),
            None => forall|j: int| 0 <= j < objects.len() ==> (#[trigger] objects[j]).name != names[k],
        }
}

/// The two strategies converge: when the direct lookups report exactly the
/// loaded objects, and no two distinct candidate names of the slot are
/// both loaded, a slot transformed by the pull strategy satisfies the same
/// relation `slot_filled` that one push pass over the loaded objects
/// establishes.
pub proof fn lemma_pull_matches_push(
    pre: SlotView,
    post: SlotView,
    lookups: Seq<Option<ObjectView>>,
    objects: Seq<ObjectView>,
)
    requires
        slot_pulled(pre, post, lookups),
        lookups_consistent(lookups, pre.names, objects),
        forall|k1: int, k2: int|
            0 <= k1 < pre.names.len() && 0 <= k2 < pre.names.len() && (#[trigger] lookups[k1])
                is Some && (#[trigger] lookups[k2]) is Some ==> pre.names[k1] == pre.names[k2],
    ensures
        slot_filled(pre, post, objects),
{
    if pre.found is Some {
        return ;
    }
    match post.found {
        Some(fv) => {
            let k0 = choose|k: int|
                #[trigger] first_lookup_hit(lookups, k) && (lookups[k] matches Some(ov) && fv
                    == found_of(ov));
            let ov0 = lookups[k0]->0;
            let j0 = choose|j: int|
                #![auto]
                0 <= j < objects.len() && objects[j].name == pre.names[k0] && ov0 == objects[j]
                    && (forall|t: int| 0 <= t < j ==> objects[t].name != pre.names[k0]);
            assert(slot_matches(pre.names, objects[j0].name));
            assert forall|t: int| 0 <= t < j0 implies !slot_matches(
                pre.names,
                #[trigger] objects[t].name,
            ) by {
                if slot_matches(pre.names, objects[t].name) {
                    let k = choose|k: int|
                        0 <= k < pre.names.len() && pre.names[k] == objects[t].name;
                    assert(lookups[k] is Some) by {
                        if lookups[k] is None {
                            assert(objects[t].name != pre.names[k]);
                        }
                    }
                    assert(pre.names[k] == pre.names[k0]);
                    assert(objects[t].name == pre.names[k0]);
                    assert(false);
                }
            }
            assert(first_slot_match(pre.names, objects, j0));
        },
        None => {
            assert forall|j: int| 0 <= j < objects.len() implies !slot_matches(
                pre.names,
                #[trigger] objects[j].name,
            ) by {
                if slot_matches(pre.names, objects[j].name) {
                    let k = choose|k: int|
                        0 <= k < pre.names.len() && pre.names[k] == objects[j].name;
                    assert(lookups[k] is None);
                    assert(objects[j].name != pre.names[k]);
                    assert(false);
                }
            }
        },
    }
}

/// Does `name` match the loaded object named `object_name` under the
/// default single-lookup policy: equal to its nice name, or equal outright?
pub fn default_name_matcher(object_name: &[u8], name: &[u8]) -> (r: bool)
    ensures
        r == (name@ == nice_name(object_name@) || name@ == object_name@),
{
    bytes_eq(name, to_nice_name(object_name)) || bytes_eq(name, object_name)
}

/// Read access to one slot of a batch query.
pub trait ObjectMapEntry {
    /// The slot's mathematical content.
    spec fn entry_view(&self) -> SlotView;

    /// How many candidate names the slot declares.
    fn n_names(&self) -> (n: usize)
        ensures
            n == self.entry_view().names.len(),
    ;

    /// The candidate name at position `k`, in priority order.
    fn name_at(&self, k: usize) -> (r: &Vec<u8>)
        requires
            k < self.entry_view().names.len(),
        ensures
            r@ == self.entry_view().names[k as int],
    ;

    /// Has the slot already been written?
    fn is_written(&self) -> (r: bool)
        ensures
            r == (self.entry_view().found is Some),
    ;

    /// Does the raw object name `name` equal one of the slot's candidates?
    fn name_matches(&self, name: &[u8]) -> (r: bool)
        ensures
            r == slot_matches(self.entry_view().names, name@),
    ;
}

/// Write access to one slot of a batch query.
pub trait ObjectMapEntryMut: ObjectMapEntry {
    /// Writes `object` into the slot. A slot is written at most once.
    fn write(&mut self, object: &UnixObject)
        requires
            old(self).entry_view().found is None,
        ensures
            final(self).entry_view().names == old(self).entry_view().names,
            final(self).entry_view().found == Some(found_of(object@)),
    ;
}

/// A collection of slots, driven to completion by a batch pass.
pub trait ObjectMap {
    /// The mathematical content of the whole map, slot by slot.
    spec fn map_view(&self) -> Seq<SlotView>;

    /// How many slots the map holds.
    fn n_entries(&self) -> (n: usize)
        ensures
            n == self.map_view().len(),
    ;

    /// Has slot `i` already been written?
    fn entry_is_written(&self, i: usize) -> (r: bool)
        requires
            i < self.map_view().len(),
        ensures
            r == (self.map_view()[i as int].found is Some),
    ;

    /// Does the raw object name `name` equal one of slot `i`'s candidates?
    fn entry_name_matches(&self, i: usize, name: &[u8]) -> (r: bool)
        requires
            i < self.map_view().len(),
        ensures
            r == slot_matches(self.map_view()[i as int].names, name@),
    ;

    /// Writes `object` into slot `i`, leaving every other slot alone.
    fn write_entry(&mut self, i: usize, object: &UnixObject)
        requires
            i < old(self).map_view().len(),
            old(self).map_view()[i as int].found is None,
        ensures
            final(self).map_view().len() == old(self).map_view().len(),
            final(self).map_view()[i as int].names == old(self).map_view()[i as int].names,
            final(self).map_view()[i as int].found == Some(found_of(object@)),
            forall|j: int|
                0 <= j < old(self).map_view().len() && j != i ==> final(self).map_view()[j] == old(
                    self,
                ).map_view()[j],
    ;

    /// Is every slot written? A full map needs no further platform work.
    fn is_full(&self) -> (r: bool)
        ensures
            r == map_full(self.map_view()),
    ;
}

/// What a slot stores once an object has been written into it.
pub struct FoundObject {
    /// The raw name of the object that matched.
    pub name: Vec<u8>,
    /// The base address of the object that matched.
    pub base_addr: usize,
}

/// A single batch-query slot: candidate names in priority order, and the
/// record of the first matching object once one has been written.
pub struct Slot {
    names: Vec<Vec<u8>>,
    found: Option<FoundObject>,
}

impl Slot {
    /// A fresh, unwritten slot wanting one of `names`.
    pub fn new(names: Vec<Vec<u8>>) -> (r: Slot)
        ensures
            r.entry_view().names == names.deep_view(),
            r.entry_view().found is None,
    {
        Slot { names, found: None }
    }

    /// The record of the object written into the slot, if any.
    pub fn found(&self) -> (r: &Option<FoundObject>)
        ensures
            match r {
                Some(f) => self.entry_view().found == Some(
                    FoundView { name: f.name@, base_addr: f.base_addr },
                ),
                None => self.entry_view().found is None,
            },
    {
        &self.found
    }
}

impl ObjectMapEntry for Slot {
    closed spec fn entry_view(&self) -> SlotView {
        SlotView {
            names: self.names.deep_view(),
            found: match self.found {
                Some(f) => Some(FoundView { name: f.name@, base_addr: f.base_addr }),
                None => None,
            },
        }
    }

    fn n_names(&self) -> (n: usize) {
        self.names.len()
    }

    fn name_at(&self, k: usize) -> (r: &Vec<u8>) {
        &self.names[k]
    }

    fn is_written(&self) -> (r: bool) {
        self.found.is_some()
    }

    fn name_matches(&self, name: &[u8]) -> (r: bool) {
        let ghost names = self.entry_view().names;
        let mut k: usize = 0;
        while k < self.names.len()
            invariant
                k <= names.len(),
                names == self.names.deep_view(),
                names.len() == self.names@.len(),
                forall|t: int| 0 <= t < k ==> names[t] != name@,
            decreases names.len() - k,
        {
            let hit = bytes_eq(self.names[k].as_slice(), name);
            proof {
                assert(names[k as int] =~= self.names@[k as int]@);
            }
            if hit {
                assert(names[k as int] == name@);
                return true;
            }
            k = k + 1;
        }
        false
    }
}

impl ObjectMapEntryMut for Slot {
    fn write(&mut self, object: &UnixObject) {
        let name = vstd::slice::slice_to_vec(object.name().as_slice());
        self.found = Some(FoundObject { name, base_addr: object.base_addr() });
    }
}

impl ObjectMap for Slot {
    open spec fn map_view(&self) -> Seq<SlotView> {
        seq![self.entry_view()]
    }

    fn n_entries(&self) -> (n: usize) {
        1
    }

    fn entry_is_written(&self, i: usize) -> (r: bool) {
        self.is_written()
    }

    fn entry_name_matches(&self, i: usize, name: &[u8]) -> (r: bool) {
        self.name_matches(name)
    }

    fn write_entry(&mut self, i: usize, object: &UnixObject) {
        self.write(object);
    }

    fn is_full(&self) -> (r: bool) {
        let r = self.is_written();
        proof {
            if r {
                assert forall|i: int|
                    0 <= i < self.map_view().len() implies #[trigger] self.map_view()[i].found
                    is Some by {
                    assert(i == 0);
                }
            } else {
                assert(!(self.map_view()[0].found is Some));
            }
        }
        r
    }
}

impl<T: ObjectMapEntryMut> ObjectMap for Vec<T> {
    open spec fn map_view(&self) -> Seq<SlotView> {
        Seq::new(self@.len(), |i: int| self@[i].entry_view())
    }

    fn n_entries(&self) -> (n: usize) {
        self.len()
    }

    fn entry_is_written(&self, i: usize) -> (r: bool) {
        self[i].is_written()
    }

    fn entry_name_matches(&self, i: usize, name: &[u8]) -> (r: bool) {
        self[i].name_matches(name)
    }

    fn write_entry(&mut self, i: usize, object: &UnixObject) {
        let entry = &mut self[i];
        entry.write(object);
    }

    fn is_full(&self) -> (r: bool) {
        let mut i: usize = 0;
        while i < self.len()
            invariant
                i <= self.map_view().len(),
                self.map_view().len() == self@.len(),
                forall|t: int| 0 <= t < i ==> #[trigger] self.map_view()[t].found is Some,
            decreases self@.len() - i,
        {
            if !self[i].is_written() {
                assert(self.map_view()[i as int].found is None);
                return false;
            }
            i = i + 1;
        }
        true
    }
}

} // verus!
