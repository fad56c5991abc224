//! Enumeration of the code objects loaded into a process.
//!
//! The platform loader hands the platform layer one record per loaded
//! object — its raw name, its base address and its segment headers — and
//! this crate answers name lookups, full traversals and batch queries over
//! those records with a single matching policy: raw-name equality first,
//! then the normalized "nice" name.

pub mod map;
pub mod unix;
pub mod util;

use vstd::prelude::*;

use crate::map::{fill_post, first_slot_match, found_of, slot_filled, slot_matches, slot_offered,
    ObjectMap, SlotView};
use crate::unix::{ElfSegmentHeader, ObjectView, UnixObject};
use crate::util::{check_lib_name, lib_name_matches};
use core::ops::ControlFlow;

verus! {

/// A platform-operation failure. On the platform family modelled here the
/// traversal cannot fail by construction, so no operation ever produces a
/// value of this type; absent objects and absent symbols are reported as
/// absent results, never through this channel.
#[derive(Debug)]
pub struct Error;

/// The permission flags of one segment of a loaded object.
pub struct SegmentFlags(unix::SegmentFlags);

impl View for SegmentFlags {
    type V = unix::SegmentFlags;

    closed spec fn view(&self) -> unix::SegmentFlags {
        self.0
    }
}

impl SegmentFlags {
    /// The segment may be executed.
    pub fn has_x(&self) -> (r: bool)
        ensures
            r == self@.spec_has_x(),
    {
        self.0.is_executable()
    }

    /// The segment may be read.
    pub fn has_r(&self) -> (r: bool)
        ensures
            r == self@.spec_has_r(),
    {
        self.0.is_readable()
    }

    /// The segment may be written.
    pub fn has_w(&self) -> (r: bool)
        ensures
            r == self@.spec_has_w(),
    {
        self.0.is_writable()
    }

    /// The flags are exactly read-and-execute — the mark of a clean code
    /// region. A segment that is also writable does not qualify.
    pub fn is_rx(&self) -> (r: bool)
        ensures
            r == self@.spec_is_rx(),
    {
        let rx = unix::SegmentFlags::readable().union(unix::SegmentFlags::executable());
        self.0.is(&rx)
    }
}

/// One mapped region of a loaded object, borrowed for the duration of the
/// visit that produced it.
pub struct Segment<'a> {
    header: &'a ElfSegmentHeader,
}

impl<'a> View for Segment<'a> {
    type V = ElfSegmentHeader;

    closed spec fn view(&self) -> ElfSegmentHeader {
        *self.header
    }
}

impl<'a> Segment<'a> {
    /// The segment's permission flags.
    pub fn flags(&self) -> (r: SegmentFlags)
        ensures
            r@.0 == self@.p_flags,
    {
        SegmentFlags(self.header.flags())
    }

    /// The segment's virtual address.
    pub fn virtual_addr(&self) -> (r: usize)
        ensures
            r == self@.p_vaddr,
    {
        self.header.virtual_addr()
    }

    /// The segment's size in memory.
    pub fn size(&self) -> (r: usize)
        ensures
            r == self@.p_memsz,
    {
        self.header.size()
    }
}

/// The segments of one loaded object, handed out one at a time. Each call
/// to [`Object::segments`] re-derives a fresh sequence from the object.
pub struct Segments<'a> {
    object: &'a UnixObject,
    index: usize,
}

impl<'a> Segments<'a> {
    /// The headers this sequence walks.
    pub closed spec fn spec_headers(&self) -> Seq<ElfSegmentHeader> {
        self.object@.headers
    }

    /// How many headers have been handed out already.
    pub closed spec fn spec_index(&self) -> int {
        self.index as int
    }

    /// The next segment, or `None` once all have been handed out.
    pub fn next(&mut self) -> (r: Option<Segment<'a>>)
        ensures
            final(self).spec_headers() == old(self).spec_headers(),
            old(self).spec_index() < old(self).spec_headers().len() ==> {
                &&& final(self).spec_index() == old(self).spec_index() + 1
                &&& match r {
                    Some(seg) => seg@ == old(self).spec_headers()[old(self).spec_index()],
                    None => false,
                }
            },
            old(self).spec_index() >= old(self).spec_headers().len() ==> {
                &&& final(self).spec_index() == old(self).spec_index()
                &&& r is None
            },
    {
        let headers = self.object.headers();
        if self.index < headers.len() {
            let seg = Segment { header: &headers[self.index] };
            self.index = self.index + 1;
            Some(seg)
        } else {
            None
        }
    }
}

/// A capability for resolving symbol names inside one loaded object. The
/// platform layer opens the underlying loader handle and wraps it here;
/// the token is the loader's handle value.
pub struct Symbols {
    handle: usize,
}

impl View for Symbols {
    type V = usize;

    closed spec fn view(&self) -> usize {
        self.handle
    }
}

impl Symbols {
    /// Wraps the loader handle the platform layer obtained for one object.
    pub fn new(handle: usize) -> (r: Symbols)
        ensures
            r@ == handle,
    {
        Symbols { handle }
    }

    /// The loader handle, for the platform layer to resolve names with.
    pub fn handle(&self) -> (r: usize)
        ensures
            r == self@,
    {
        self.handle
    }
}

/// The mathematical content of an owned library handle.
pub ghost struct LibraryView {
    /// The base address of the object the handle keeps resident.
    pub base_addr: usize,
    /// The loader handle taken over from the resolution capability.
    pub handle: usize,
}

/// An owned, independently counted hold on a loaded object, outliving the
/// enumeration pass that produced it.
pub struct Library {
    base_addr: usize,
    symbols: Symbols,
}

impl View for Library {
    type V = LibraryView;

    closed spec fn view(&self) -> LibraryView {
        LibraryView { base_addr: self.base_addr, handle: self.symbols@ }
    }
}

impl Library {
    /// Promotes a scoped resolution capability into an owned handle. The
    /// capability is consumed: its loader handle moves here and nowhere
    /// else, so the one release the platform layer performs on drop stays
    /// exactly one.
    pub fn new(object: &UnixObject, symbols: Symbols) -> (r: Library)
        ensures
            r@.base_addr == object@.base_addr,
            r@.handle == symbols@,
    {
        Library { base_addr: object.base_addr(), symbols }
    }

    /// The base address of the object this handle keeps resident.
    pub fn base_addr(&self) -> (r: usize)
        ensures
            r == self@.base_addr,
    {
        self.base_addr
    }

    /// The loader handle, for the platform layer to resolve names with.
    pub fn handle(&self) -> (r: usize)
        ensures
            r == self@.handle,
    {
        self.symbols.handle()
    }
}

/// One loaded object, borrowed for the duration of a single visit.
pub struct Object<'a> {
    inner: &'a UnixObject,
}

impl<'a> View for Object<'a> {
    type V = ObjectView;

    closed spec fn view(&self) -> ObjectView {
        self.inner@
    }
}

impl<'a> Object<'a> {
    /// Wraps one platform record for the duration of a visit.
    pub fn new(inner: &'a UnixObject) -> (r: Object<'a>)
        ensures
            r@ == inner@,
    {
        Object { inner }
    }

    /// The loader reports the main program with an empty raw name; the
    /// test is that convention, not a path heuristic.
    pub fn is_main_program(&self) -> (r: bool)
        ensures
            r == (self@.name.len() == 0),
    {
        self.inner.is_main_program()
    }

    /// The base address the object is loaded at.
    pub fn base_addr(&self) -> (r: usize)
        ensures
            r == self@.base_addr,
    {
        self.inner.base_addr()
    }

    /// The object's raw name.
    pub fn name(&self) -> (r: &'a Vec<u8>)
        ensures
            r@ == self@.name,
    {
        self.inner.name()
    }

    /// A fresh walk over the object's segments.
    pub fn segments(&self) -> (r: Segments<'a>)
        ensures
            r.spec_headers() == self@.headers,
            r.spec_index() == 0,
    {
        Segments { object: self.inner, index: 0 }
    }

    /// Promotes a resolution capability for this object into an owned
    /// [`Library`] handle. Ownership of the loader handle transfers; it is
    /// not duplicated.
    pub fn library(&self, symbols: Symbols) -> (r: Library)
        ensures
            r@.base_addr == self@.base_addr,
            r@.handle == symbols@,
    {
        Library::new(self.inner, symbols)
    }
}

/// Values a [`Objects::for_each`] callback may return to signal whether
/// the traversal should stop.
pub trait ForEachResult: Sized {
    /// Does this value signal that the traversal should stop?
    spec fn spec_is_break(&self) -> bool;

    /// Turns the value into the stop signal.
    fn into_is_break(self) -> (r: bool)
        ensures
            r == self.spec_is_break(),
    ;
}

impl ForEachResult for bool {
    open spec fn spec_is_break(&self) -> bool {
        *self
    }

    fn into_is_break(self) -> (r: bool) {
        self
    }
}

impl ForEachResult for () {
    open spec fn spec_is_break(&self) -> bool {
        false
    }

    fn into_is_break(self) -> (r: bool) {
        false
    }
}

impl ForEachResult for ControlFlow<(), ()> {
    open spec fn spec_is_break(&self) -> bool {
        match *self {
            ControlFlow::Break(_) => true,
            ControlFlow::Continue(_) => false,
        }
    }

    fn into_is_break(self) -> (r: bool) {
        match self {
            ControlFlow::Break(_) => true,
            ControlFlow::Continue(_) => false,
        }
    }
}

/// One visit of `f` on an object looking like `v` came back signalling
/// "continue".
pub open spec fn visit_continues<'s, R: ForEachResult, F: Fn(Object<'s>) -> R>(
    f: F,
    v: ObjectView,
) -> bool {
    exists|o: Object<'s>, ret: R|
        o@ == v && #[trigger] call_ensures(f, (o,), ret) && !ret.spec_is_break()
}

/// One visit of `f` on an object looking like `v` came back signalling
/// "stop".
pub open spec fn visit_breaks<'s, R: ForEachResult, F: Fn(Object<'s>) -> R>(
    f: F,
    v: ObjectView,
) -> bool {
    exists|o: Object<'s>, ret: R|
        o@ == v && #[trigger] call_ensures(f, (o,), ret) && ret.spec_is_break()
}

/// A full traversal of `objects` by `f` stopped at position `k`: every
/// earlier object was visited and answered "continue", and either `k` is
/// the end or the visit at `k` answered "stop".
pub open spec fn traversal_stopped<'s, R: ForEachResult, F: Fn(Object<'s>) -> R>(
    f: F,
    objects: Seq<ObjectView>,
    k: int,
) -> bool {
    &&& 0 <= k <= objects.len()
    &&& forall|i: int| 0 <= i < k ==> visit_continues::<R, F>(f, #[trigger] objects[i])
    &&& (k == objects.len() || visit_breaks::<R, F>(f, objects[k]))
}

/// One visit of `f` on an object looking like `v` came back empty.
pub open spec fn visit_misses<'s, R, F: Fn(Object<'s>) -> Option<R>>(f: F, v: ObjectView) -> bool {
    exists|o: Object<'s>| o@ == v && #[trigger] call_ensures(f, (o,), None::<R>)
}

/// A search over `objects` by `f` succeeded at position `k` with `val`:
/// every earlier visit came back empty, and the visit at `k` yielded `val`.
pub open spec fn search_found<'s, R, F: Fn(Object<'s>) -> Option<R>>(
    f: F,
    objects: Seq<ObjectView>,
    k: int,
    val: R,
) -> bool {
    &&& 0 <= k < objects.len()
    &&& (exists|o: Object<'s>| o@ == objects[k] && #[trigger] call_ensures(f, (o,), Some(val)))
    &&& forall|i: int| 0 <= i < k ==> visit_misses::<R, F>(f, #[trigger] objects[i])
}

/// Position `j` holds the first loaded object whose raw name matches
/// `name` under the single-lookup policy.
pub open spec fn first_name_match(objects: Seq<ObjectView>, name: Seq<u8>, j: int) -> bool {
    &&& 0 <= j < objects.len()
    &&& lib_name_matches(objects[j].name, name)
    &&& forall|k: int| 0 <= k < j ==> !lib_name_matches(#[trigger] objects[k].name, name)
}

/// One call of `f` on an object looking like `v` returned `val`.
pub open spec fn applied_to<'s, R, F: FnOnce(Object<'s>) -> R>(f: F, v: ObjectView, val: R) -> bool {
    exists|o: Object<'s>| o@ == v && #[trigger] call_ensures(f, (o,), val)
}

/// One call of `f` on an object looking like `objects[j]` returned `val`.
pub open spec fn applied_at<'s, R, F: FnOnce(Object<'s>) -> R>(
    f: F,
    objects: Seq<ObjectView>,
    j: int,
    val: R,
) -> bool {
    applied_to::<R, F>(f, objects[j], val)
}

/// A lookup of `name` over `objects` applied `f` to the first matching
/// object and got `val` back.
pub open spec fn lookup_found<'s, R, F: FnOnce(Object<'s>) -> R>(
    f: F,
    objects: Seq<ObjectView>,
    name: Seq<u8>,
    val: R,
) -> bool {
    exists|j: int|
        first_name_match(objects, name, j) && #[trigger] applied_at::<R, F>(f, objects, j, val)
}

/// Single-name lookup for a direct-lookup platform family: the platform
/// asks its primitive for the object named by the query — no traversal is
/// performed — and hands whatever came back to this step, which applies
/// `f` to the found object. An absent object is an absent result.
pub fn map_found<'s, R, F: FnOnce(Object<'s>) -> R>(found: Option<&'s UnixObject>, f: F) -> (res:
    Option<R>)
    requires
        forall|o: Object<'s>|
            (match found {
                Some(u) => o@ == u@,
                None => false,
            }) ==> call_requires(f, (o,)),
    ensures
        match (found, res) {
            (Some(u), Some(val)) => applied_to::<R, F>(f, u@, val),
            (None, None) => true,
            _ => false,
        },
{
    match found {
        Some(u) => {
            let obj = Object::new(u);
            let ghost gobj = obj;
            let val = f(obj);
            proof {
                assert(gobj@ == u@);
                assert(call_ensures(f, (gobj,), val));
                assert(applied_to::<R, F>(f, u@, val));
            }
            Some(val)
        },
        None => None,
    }
}

/// How far a batch pass has transformed one slot after the first `upto`
/// objects have been offered to it.
spec fn partial_filled(pre: SlotView, cur: SlotView, objects: Seq<ObjectView>, upto: int) -> bool {
    &&& cur.names == pre.names
    &&& match cur.found {
        Some(fv) => exists|j: int|
            #[trigger] first_slot_match(pre.names, objects, j) && j < upto && fv == found_of(
                objects[j],
            ),
        None => forall|j: int|
            0 <= j < upto ==> !slot_matches(pre.names, #[trigger] objects[j].name),
    }
}

/// The entry point for querying the objects loaded into the process. It
/// holds the records the platform traversal produced, in the loader's
/// enumeration order.
pub struct Objects {
    objects: Vec<UnixObject>,
}

impl View for Objects {
    type V = Seq<ObjectView>;

    closed spec fn view(&self) -> Seq<ObjectView> {
        self.objects.deep_view()
    }
}

impl Objects {
    /// An enumerator over no objects at all. Unlike a live enumeration,
    /// it never reports any object: the platform layer walks the loader
    /// and builds a populated enumerator with [`Objects::from_objects`].
    pub fn new() -> (r: Objects)
        ensures
            r@ == Seq::<ObjectView>::empty(),
    {
        let objects: Vec<UnixObject> = Vec::new();
        let r = Objects { objects };
        proof {
            assert(r@ =~= Seq::<ObjectView>::empty());
        }
        r
    }

    /// An enumerator over the records the platform traversal produced,
    /// in the loader's enumeration order.
    pub fn from_objects(objects: Vec<UnixObject>) -> (r: Objects)
        ensures
            r@ == objects.deep_view(),
    {
        Objects { objects }
    }

    /// How many objects the enumerator holds.
    pub fn len(&self) -> (r: usize)
        ensures
            r == self@.len(),
    {
        self.objects.len()
    }

    /// Visits every loaded object in enumeration order, stopping early as
    /// soon as `f` signals a stop. Infallible on this platform family.
    pub fn for_each<'s, R: ForEachResult, F: Fn(Object<'s>) -> R>(&'s self, f: F) -> (res:
        Result<(), Error>)
        requires
            forall|o: Object<'s>, j: int|
                #![trigger call_requires(f, (o,)), self@[j]]
                0 <= j < self@.len() && o@ == self@[j] ==> call_requires(f, (o,)),
        ensures
            res is Ok,
            exists|k: int| #[trigger] traversal_stopped::<R, F>(f, self@, k),
    {
        let n = self.objects.len();
        let mut i: usize = 0;
        while i < n
            invariant
                n == self@.len(),
                i <= n,
                forall|o: Object<'s>, j: int|
                    #![trigger call_requires(f, (o,)), self@[j]]
                    0 <= j < self@.len() && o@ == self@[j] ==> call_requires(f, (o,)),
                forall|t: int| 0 <= t < i ==> visit_continues::<R, F>(f, #[trigger] self@[t]),
            decreases n - i,
        {
            let obj = Object::new(&self.objects[i]);
            let ghost gobj = obj;
            assert(gobj@ == self@[i as int]);
            let ret = f(obj);
            let ghost gret = ret;
            let stop = ret.into_is_break();
            if stop {
                proof {
                    assert(call_ensures(f, (gobj,), gret) && gret.spec_is_break());
                    assert(visit_breaks::<R, F>(f, self@[i as int]));
                    assert(traversal_stopped::<R, F>(f, self@, i as int));
                }
                return Ok(());
            }
            proof {
                assert(call_ensures(f, (gobj,), gret) && !gret.spec_is_break());
                assert(visit_continues::<R, F>(f, self@[i as int]));
            }
            i = i + 1;
        }
        proof {
            assert(traversal_stopped::<R, F>(f, self@, self@.len() as int));
        }
        Ok(())
    }

    /// Visits every loaded object in enumeration order until `f` yields a
    /// value; that value is the result. Infallible on this platform
    /// family.
    pub fn find_map<'s, R, F: Fn(Object<'s>) -> Option<R>>(&'s self, f: F) -> (res: Result<
        Option<R>,
        Error,
    >)
        requires
            forall|o: Object<'s>, j: int|
                #![trigger call_requires(f, (o,)), self@[j]]
                0 <= j < self@.len() && o@ == self@[j] ==> call_requires(f, (o,)),
        ensures
            res is Ok,
            match res {
                Ok(Some(val)) => exists|k: int| #[trigger] search_found::<R, F>(f, self@, k, val),
                Ok(None) => forall|i: int|
                    0 <= i < self@.len() ==> visit_misses::<R, F>(f, #[trigger] self@[i]),
                Err(_) => false,
            },
    {
        let n = self.objects.len();
        let mut i: usize = 0;
        while i < n
            invariant
                n == self@.len(),
                i <= n,
                forall|o: Object<'s>, j: int|
                    #![trigger call_requires(f, (o,)), self@[j]]
                    0 <= j < self@.len() && o@ == self@[j] ==> call_requires(f, (o,)),
                forall|t: int| 0 <= t < i ==> visit_misses::<R, F>(f, #[trigger] self@[t]),
            decreases n - i,
        {
            let obj = Object::new(&self.objects[i]);
            let ghost gobj = obj;
            assert(gobj@ == self@[i as int]);
            let ret = f(obj);
            match ret {
                Some(val) => {
                    proof {
                        assert(call_ensures(f, (gobj,), Some(val)));
                        assert(search_found::<R, F>(f, self@, i as int, val));
                    }
                    return Ok(Some(val));
                },
                None => {
                    proof {
                        assert(call_ensures(f, (gobj,), None::<R>));
                        assert(visit_misses::<R, F>(f, self@[i as int]));
                    }
                },
            }
            i = i + 1;
        }
        Ok(None)
    }

    /// Looks the first object whose raw name matches `name` up — by raw
    /// equality first, then by its nice name — and applies `f` to it. An
    /// absent object is an absent result, never a failure.
    pub fn map_by_name<'s, R, F: FnOnce(Object<'s>) -> R>(&'s self, name: &[u8], f: F) -> (res:
        Result<Option<R>, Error>)
        requires
            forall|o: Object<'s>, j: int|
                #![trigger call_requires(f, (o,)), self@[j]]
                0 <= j < self@.len() && o@ == self@[j] && lib_name_matches(self@[j].name, name@)
                    ==> call_requires(f, (o,)),
        ensures
            res is Ok,
            match res {
                Ok(Some(val)) => lookup_found::<R, F>(f, self@, name@, val),
                Ok(None) => forall|j: int|
                    0 <= j < self@.len() ==> !lib_name_matches(#[trigger] self@[j].name, name@),
                Err(_) => false,
            },
    {
        let n = self.objects.len();
        let mut i: usize = 0;
        while i < n
            invariant
                n == self@.len(),
                i <= n,
                forall|o: Object<'s>, j: int|
                    #![trigger call_requires(f, (o,)), self@[j]]
                    0 <= j < self@.len() && o@ == self@[j] && lib_name_matches(
                        self@[j].name,
                        name@,
                    ) ==> call_requires(f, (o,)),
                forall|k: int|
                    0 <= k < i ==> !lib_name_matches(#[trigger] self@[k].name, name@),
            decreases n - i,
        {
            let candidate = &self.objects[i];
            if check_lib_name(candidate.name().as_slice(), name) {
                let obj = Object::new(candidate);
                let ghost gobj = obj;
                proof {
                    assert(first_name_match(self@, name@, i as int));
                }
                let val = f(obj);
                proof {
                    assert(gobj@ == self@[i as int]);
                    assert(call_ensures(f, (gobj,), val));
                    assert(applied_at::<R, F>(f, self@, i as int, val));
                    assert(lookup_found::<R, F>(f, self@, name@, val));
                }
                return Ok(Some(val));
            }
            i = i + 1;
        }
        Ok(None)
    }

    /// Drives a batch query to completion with one traversal: each object
    /// is offered, in enumeration order, to every slot still unwritten —
    /// one [`crate::map::offer_object`] step per visit — and a slot takes
    /// the first object whose raw name equals one of its candidates. The
    /// pass stops the instant the map is full; a platform layer driving
    /// the same step inside a live traversal stops the primitive itself
    /// at that point. A slot no object matches is left unwritten, and the
    /// call still succeeds.
    pub fn fill_map<M: ObjectMap>(&self, map: &mut M) -> (res: Result<(), Error>)
        ensures
            res is Ok,
            fill_post(old(map).map_view(), final(map).map_view(), self@),
    {
        let ghost pre = old(map).map_view();
        let ghost objs = self@;
        let n = self.objects.len();
        let mut oi: usize = 0;
        let mut full = map.is_full();
        while oi < n && !full
            invariant
                n == objs.len(),
                objs == self@,
                oi <= n,
                map.map_view().len() == pre.len(),
                full ==> crate::map::map_full(map.map_view()),
                forall|s: int|
                    0 <= s < pre.len() && (#[trigger] pre[s]).found is Some ==> map.map_view()[s]
                        == pre[s],
                forall|s: int|
                    0 <= s < pre.len() && (#[trigger] pre[s]).found is None ==> partial_filled(
                        pre[s],
                        map.map_view()[s],
                        objs,
                        oi as int,
                    ),
            decreases n - oi,
        {
            let obj = &self.objects[oi];
            let ghost ov = objs[oi as int];
            assert(obj@ == ov);
            let ghost mid = map.map_view();
            full = crate::map::offer_object(map, obj);
            proof {
                assert forall|s: int|
                    0 <= s < pre.len() && (#[trigger] pre[s]).found is Some implies map.map_view()[
                    s] == pre[s] by {
                    assert(mid[s] == pre[s]);
                    assert(slot_offered(mid[s], map.map_view()[s], ov));
                }
                assert forall|s: int|
                    0 <= s < pre.len() && (#[trigger] pre[s]).found is None implies partial_filled(
                    pre[s],
                    map.map_view()[s],
                    objs,
                    oi as int + 1,
                ) by {
                    assert(slot_offered(mid[s], map.map_view()[s], ov));
                    assert(partial_filled(pre[s], mid[s], objs, oi as int));
                    if mid[s].found is Some {
                        assert(map.map_view()[s] == mid[s]);
                    } else if slot_matches(pre[s].names, ov.name) {
                        assert(first_slot_match(pre[s].names, objs, oi as int));
                        assert(map.map_view()[s].found == Some(found_of(ov)));
                    } else {
                        assert forall|j: int|
                            0 <= j < oi as int + 1 implies !slot_matches(
                            pre[s].names,
                            #[trigger] objs[j].name,
                        ) by {
                            if j < oi as int {
                                assert(partial_filled(pre[s], mid[s], objs, oi as int));
                            }
                        }
                        assert(map.map_view()[s] == mid[s]);
                    }
                }
            }
            oi = oi + 1;
        }
        proof {
            assert forall|s: int| 0 <= s < pre.len() implies slot_filled(
                pre[s],
                map.map_view()[s],
                objs,
            ) by {
                if pre[s].found is None {
                    if oi == n {
                        assert(partial_filled(pre[s], map.map_view()[s], objs, n as int));
                    } else {
                        assert(partial_filled(pre[s], map.map_view()[s], objs, oi as int));
                        assert(map.map_view()[s].found is Some);
                    }
                }
            }
        }
        Ok(())
    }
}

} // verus!
