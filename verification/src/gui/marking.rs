//! Implements marking of locations.

use std::collections::BTreeMap;

use vstd::prelude::*;

use crate::statistics::statistics_tree::sorted_keys;
use crate::window::Window;

verus! {

broadcast use vstd::std_specs::btree::group_btree_axioms;

/// The ID of a marked location.
#[derive(Debug, Clone, Copy, PartialEq, Eq, Structural, PartialOrd, Ord, Hash)]
pub struct MarkedLocationId {
    /// The offset of the marked location.
    offset: u64,
    /// A unique id, never `0`.
    id: usize,
}

impl MarkedLocationId {
    /// The offset of the marked location.
    pub closed spec fn spec_offset(&self) -> u64 {
        self.offset
    }

    /// The unique id.
    pub closed spec fn spec_id(&self) -> usize {
        self.id
    }

    /// The offset of the marked location.
    pub fn offset(&self) -> (r: u64)
        ensures
            r == self.spec_offset(),
    {
        self.offset
    }
}

/// The kind of marked location.
#[derive(Debug, Clone, Copy, PartialEq, Eq, Structural, Hash)]
pub enum MarkingKind {
    /// The location is marked, because the user selected it.
    Selection,
}

/// A marked location.
#[derive(Clone, Copy)]
pub struct MarkedLocation {
    /// The window that this location refers to.
    window: Window,
    /// The kind of the marked location.
    kind: MarkingKind,
    /// The ID of this location.
    ///
    /// This will be filled when the location is added to the marked locations.
    id: Option<MarkedLocationId>,
}

impl MarkedLocation {
    /// The window covered by this marked location.
    pub closed spec fn spec_window(&self) -> Window {
        self.window
    }

    /// The kind of the marked location.
    pub closed spec fn spec_kind(&self) -> MarkingKind {
        self.kind
    }

    /// The ID of the location, once it is added.
    pub closed spec fn spec_id(&self) -> Option<MarkedLocationId> {
        self.id
    }

    /// The location with the given ID.
    pub closed spec fn with_id(self, id: MarkedLocationId) -> MarkedLocation {
        MarkedLocation { id: Some(id), ..self }
    }

    /// Creates a new marked location on the given window.
    pub fn new(window: Window, kind: MarkingKind) -> (r: MarkedLocation)
        ensures
            r.spec_window() == window,
            r.spec_kind() == kind,
            r.spec_id() is None,
    {
        MarkedLocation { window, kind, id: None }
    }

    /// The window covered by this marked location.
    pub fn window(&self) -> (r: Window)
        ensures
            r == self.spec_window(),
    {
        self.window
    }

    /// The kind of the marked location.
    pub fn kind(&self) -> (r: MarkingKind)
        ensures
            r == self.spec_kind(),
    {
        self.kind
    }

    /// The ID of the location, once it is added.
    pub fn id(&self) -> (r: Option<MarkedLocationId>)
        ensures
            r == self.spec_id(),
    {
        self.id
    }
}

/// Stores the marked locations to highlight.
pub struct MarkedLocations {
    /// The locations that should be highlighted, by the offset at which they start.
    locations: BTreeMap<u64, Vec<MarkedLocation>>,
    /// The next ID that will be used for a marked location.
    next_id: usize,
    /// The currently hovered location.
    hovered_location: Option<MarkedLocationId>,
}

/// The id that follows `id`: one more, or `1` again after the largest.
pub open spec fn spec_next_id(id: usize) -> usize {
    if id == usize::MAX {
        1
    } else {
        (id + 1) as usize
    }
}

/// The items of the sequence whose decision is `false`, in order.
pub open spec fn kept<T>(items: Seq<T>, removed: Seq<bool>) -> Seq<T>
    decreases items.len(),
{
    if items.len() == 0 {
        Seq::empty()
    } else {
        let rest = kept(items.drop_last(), removed.take(items.len() - 1));
        if removed[items.len() - 1] {
            rest
        } else {
            rest.push(items.last())
        }
    }
}

/// The list at a start offset after removing the locations that the filter matched: there are
/// decisions of the filter, one per location, and the locations it did not match remain.
pub open spec fn filtered<F: Fn(&MarkedLocation) -> bool>(
    before: Seq<MarkedLocation>,
    after: Seq<MarkedLocation>,
    filter: F,
) -> bool {
    exists|removed: Seq<bool>|
        {
            &&& removed.len() == before.len()
            &&& forall|i: int| 0 <= i < before.len() ==> call_ensures(filter, (&before[i],), #[trigger] removed[i])
            &&& after == kept(before, removed)
        }
}

/// The number of decisions that are `false`.
pub open spec fn num_kept(removed: Seq<bool>) -> nat
    decreases removed.len(),
{
    if removed.len() == 0 {
        0
    } else {
        num_kept(removed.drop_last()) + if removed.last() {
            0nat
        } else {
            1nat
        }
    }
}

/// Keeping the items whose decision is `false` keeps exactly those: as many as there are such
/// decisions, each kept item is one of them, and each of them is kept.
pub proof fn lemma_kept<T>(items: Seq<T>, removed: Seq<bool>)
    requires
        removed.len() == items.len(),
    ensures
        kept(items, removed).len() == num_kept(removed),
        forall|i: int| 0 <= i < items.len() && !removed[i] ==> kept(items, removed).contains(#[trigger] items[i]),
        forall|j: int|
            0 <= j < kept(items, removed).len() ==> exists|i: int|
                0 <= i < items.len() && !removed[i] && #[trigger] kept(items, removed)[j] == items[i],
    decreases items.len(),
{
    if items.len() > 0 {
        let n = items.len() - 1;
        let front = items.drop_last();
        let decided = removed.take(n);
        lemma_kept(front, decided);
        assert(removed.drop_last() =~= decided);
        let rest = kept(front, decided);
        assert forall|i: int| 0 <= i < items.len() && !removed[i] implies kept(items, removed).contains(
            #[trigger] items[i],
        ) by {
            if i < n {
                assert(front[i] == items[i]);
                assert(decided[i] == removed[i]);
                let k = choose|k: int| 0 <= k < rest.len() && rest[k] == front[i];
                if !removed[n] {
                    assert(kept(items, removed)[k] == rest[k]);
                }
            } else {
                assert(kept(items, removed)[rest.len() as int] == items[n]);
            }
        }
        assert forall|j: int| 0 <= j < kept(items, removed).len() implies exists|i: int|
            0 <= i < items.len() && !removed[i] && #[trigger] kept(items, removed)[j] == items[i] by {
            if j < rest.len() {
                assert(kept(items, removed)[j] == rest[j]);
                let i = choose|i: int| 0 <= i < front.len() && !decided[i] && rest[j] == front[i];
                assert(items[i] == front[i]);
            } else {
                assert(kept(items, removed)[j] == items[n]);
            }
        }
    }
}

impl MarkedLocations {
    /// The locations stored at each start offset.
    pub closed spec fn spec_locations(&self) -> Map<u64, Seq<MarkedLocation>> {
        Map::new(|k: u64| self.locations@.contains_key(k), |k: u64| self.locations@[k]@)
    }

    /// The ID that the next added location receives.
    pub closed spec fn spec_next_id(&self) -> usize {
        self.next_id
    }

    /// The currently hovered location.
    pub closed spec fn spec_hovered(&self) -> Option<MarkedLocationId> {
        self.hovered_location
    }

    /// The next id is never `0`.
    pub closed spec fn wf(&self) -> bool {
        self.next_id != 0
    }

    /// Creates a new empty list of marked locations.
    pub fn new() -> (r: MarkedLocations)
        ensures
            r.wf(),
            r.spec_locations() == Map::<u64, Seq<MarkedLocation>>::empty(),
            r.spec_next_id() == 1,
            r.spec_hovered() is None,
    {
        let r = MarkedLocations { locations: BTreeMap::new(), next_id: 1, hovered_location: None };
        proof {
            assert(r.spec_locations() =~= Map::<u64, Seq<MarkedLocation>>::empty());
        }
        r
    }

    /// Adds a new marked location to be displayed and returns its ID.
    pub fn add(&mut self, marked_location: MarkedLocation) -> (r: MarkedLocationId)
        requires
            old(self).wf(),
        ensures
            final(self).wf(),
            r.spec_offset() == marked_location.spec_window()@.start,
            r.spec_id() == old(self).spec_next_id(),
            final(self).spec_next_id() == spec_next_id(old(self).spec_next_id()),
            final(self).spec_hovered() == old(self).spec_hovered(),
            final(self).spec_locations() == old(self).spec_locations().insert(
                r.spec_offset(),
                (if old(self).spec_locations().contains_key(r.spec_offset()) {
                    old(self).spec_locations()[r.spec_offset()]
                } else {
                    Seq::empty()
                }).push(marked_location.with_id(r)),
            ),
    {
        let offset = marked_location.window.start();
        let id = MarkedLocationId { offset, id: self.next_id };
        self.next_id = if self.next_id == usize::MAX {
            1
        } else {
            self.next_id + 1
        };
        let mut location = marked_location;
        location.id = Some(id);
        let mut list: Vec<MarkedLocation> = match self.locations.remove(&offset) {
            Some(list) => list,
            None => Vec::new(),
        };
        list.push(location);
        let ghost old_locations = self.spec_locations();
        self.locations.insert(offset, list);
        proof {
            assert(self.spec_locations() =~= old(self).spec_locations().insert(
                offset,
                (if old(self).spec_locations().contains_key(offset) {
                    old(self).spec_locations()[offset]
                } else {
                    Seq::empty()
                }).push(location),
            ));
        }
        id
    }

    /// Returns the location with the given ID, if it is stored.
    pub fn get(&self, id: MarkedLocationId) -> (r: Option<MarkedLocation>)
        ensures
            r matches Some(location) ==> location.spec_id() == Some(id)
                && self.spec_locations().contains_key(id.spec_offset())
                && self.spec_locations()[id.spec_offset()].contains(location),
            r is None ==> !self.spec_locations().contains_key(id.spec_offset()) || forall|i: int|
                0 <= i < self.spec_locations()[id.spec_offset()].len()
                    ==> (#[trigger] self.spec_locations()[id.spec_offset()][i]).spec_id() != Some(
                    id,
                ),
    {
        match self.locations.get(&id.offset) {
            Some(list) => {
                let mut i: usize = 0;
                while i < list.len()
                    invariant
                        i <= list@.len(),
                        self.locations@.contains_key(id.offset),
                        list@ == self.locations@[id.offset]@,
                        forall|j: int| 0 <= j < i ==> (#[trigger] list@[j]).spec_id() != Some(id),
                    decreases list@.len() - i,
                {
                    let location = list[i];
                    let matches = match location.id {
                        Some(other) => other.offset == id.offset && other.id == id.id,
                        None => false,
                    };
                    if matches {
                        return Some(location);
                    }
                    i = i + 1;
                }
                None
            },
            None => None,
        }
    }

    /// Removes the marked locations that the given filter matches.
    pub fn remove_where<F: Fn(&MarkedLocation) -> bool>(&mut self, filter: F)
        requires
            forall|location: &MarkedLocation| #[trigger] call_requires(filter, (location,)),
        ensures
            final(self).spec_next_id() == old(self).spec_next_id(),
            final(self).spec_hovered() == old(self).spec_hovered(),
            final(self).wf() == old(self).wf(),
            final(self).spec_locations().dom() == old(self).spec_locations().dom(),
            forall|k: u64|
                #[trigger] old(self).spec_locations().contains_key(k) ==> filtered(
                    old(self).spec_locations()[k],
                    final(self).spec_locations()[k],
                    filter,
                ),
    {
        let keys = sorted_keys(&self.locations);
        let ghost before = self.spec_locations();
        let mut i: usize = 0;
        while i < keys.len()
            invariant
                i <= keys@.len(),
                keys@.to_set() == before.dom(),
                forall|a: int, b: int| 0 <= a < b < keys@.len() ==> keys@[a] < keys@[b],
                forall|location: &MarkedLocation| #[trigger] call_requires(filter, (location,)),
                self.next_id == old(self).next_id,
                self.hovered_location == old(self).hovered_location,
                before == old(self).spec_locations(),
                self.spec_locations().dom() == before.dom(),
                forall|a: int|
                    0 <= a < i ==> filtered(
                        before[#[trigger] keys@[a]],
                        self.spec_locations()[keys@[a]],
                        filter,
                    ),
                forall|a: int|
                    i <= a < keys@.len() ==> self.spec_locations()[#[trigger] keys@[a]]
                        == before[keys@[a]],
            decreases keys@.len() - i,
        {
            let k = keys[i];
            proof {
                assert(keys@.to_set().contains(keys@[i as int]));
            }
            let list = self.locations.remove(&k).unwrap();
            let mut remaining: Vec<MarkedLocation> = Vec::new();
            let ghost mut removed: Seq<bool> = Seq::empty();
            let mut j: usize = 0;
            while j < list.len()
                invariant
                    j <= list@.len(),
                    list@ == before[k],
                    forall|location: &MarkedLocation| #[trigger] call_requires(filter, (location,)),
                    removed.len() == j,
                    forall|m: int| 0 <= m < j ==> call_ensures(filter, (&list@[m],), #[trigger] removed[m]),
                    remaining@ == kept(list@.take(j as int), removed),
                decreases list@.len() - j,
            {
                let location = list[j];
                let matched = filter(&location);
                proof {
                    let longer = list@.take(j + 1);
                    assert(longer.drop_last() =~= list@.take(j as int));
                    assert(removed.push(matched).take(j as int) =~= removed);
                    removed = removed.push(matched);
                }
                if !matched {
                    remaining.push(location);
                }
                j = j + 1;
            }
            proof {
                assert(list@.take(list@.len() as int) =~= list@);
                assert(filtered(before[k], remaining@, filter));
            }
            self.locations.insert(k, remaining);
            proof {
                assert forall|a: int|
                    0 <= a < i + 1 implies filtered(
                        before[#[trigger] keys@[a]],
                        self.spec_locations()[keys@[a]],
                        filter,
                    ) by {
                    if a < i {
                        assert(keys@[a] != k);
                    }
                }
                assert forall|a: int|
                    i + 1 <= a < keys@.len() implies self.spec_locations()[#[trigger] keys@[a]]
                        == before[keys@[a]] by {
                    assert(keys@[a] != k);
                }
                assert(self.spec_locations().dom() =~= before.dom());
            }
            i = i + 1;
        }
        proof {
            assert forall|k: u64|
                #[trigger] before.contains_key(k) implies filtered(
                    before[k],
                    self.spec_locations()[k],
                    filter,
                ) by {
                assert(keys@.to_set().contains(k));
                let a = choose|a: int| 0 <= a < keys@.len() && keys@[a] == k;
            }
        }
    }

    /// The location is stored.
    pub open spec fn holds(&self, location: MarkedLocation) -> bool {
        exists|k: u64|
            self.spec_locations().contains_key(k) && #[trigger] self.spec_locations()[k].contains(location)
    }

    /// Lists all marked locations that overlap with the given window, by their start offset and
    /// then in the order in which they were added.
    pub fn iter_window(&self, window: Window) -> (r: Vec<MarkedLocation>)
        ensures
            forall|i: int|
                0 <= i < r@.len() ==> (#[trigger] r@[i]).spec_window()@.overlaps(window@) && self.holds(
                    r@[i],
                ),
            forall|k: u64, j: int|
                #[trigger] self.spec_locations().contains_key(k) && 0 <= j < self.spec_locations()[k].len()
                    && (#[trigger] self.spec_locations()[k][j]).spec_window()@.overlaps(window@)
                    ==> r@.contains(self.spec_locations()[k][j]),
    {
        let keys = sorted_keys(&self.locations);
        let mut out: Vec<MarkedLocation> = Vec::new();
        let mut i: usize = 0;
        while i < keys.len()
            invariant
                i <= keys@.len(),
                keys@.to_set() == self.locations@.dom(),
                forall|a: int, b: int| 0 <= a < b < keys@.len() ==> keys@[a] < keys@[b],
                forall|m: int|
                    0 <= m < out@.len() ==> (#[trigger] out@[m]).spec_window()@.overlaps(window@)
                        && self.holds(out@[m]),
                forall|a: int, j: int|
                    0 <= a < i && 0 <= j < self.spec_locations()[keys@[a]].len()
                        && (#[trigger] self.spec_locations()[keys@[a]][j]).spec_window()@.overlaps(window@)
                        ==> out@.contains(self.spec_locations()[keys@[a]][j]),
            decreases keys@.len() - i,
        {
            let k = keys[i];
            proof {
                assert(keys@.to_set().contains(keys@[i as int]));
            }
            let list = self.locations.get(&k).unwrap();
            let ghost before = out@;
            let mut j: usize = 0;
            while j < list.len()
                invariant
                    j <= list@.len(),
                    self.locations@.contains_key(k),
                    list@ == self.spec_locations()[k],
                    self.spec_locations().contains_key(k),
                    k == keys@[i as int],
                    forall|m: int| 0 <= m < before.len() ==> out@[m] == before[m],
                    before.len() <= out@.len(),
                    forall|m: int|
                        0 <= m < out@.len() ==> (#[trigger] out@[m]).spec_window()@.overlaps(window@)
                            && self.holds(out@[m]),
                    forall|jj: int|
                        0 <= jj < j && (#[trigger] list@[jj]).spec_window()@.overlaps(window@)
                            ==> out@.contains(list@[jj]),
                decreases list@.len() - j,
            {
                let location = list[j];
                if location.window.overlaps(window) {
                    proof {
                        assert(self.spec_locations()[k][j as int] == location);
                        assert(self.spec_locations()[k].contains(location));
                        assert(self.holds(location));
                    }
                    let ghost prev = out@;
                    out.push(location);
                    proof {
                        assert forall|jj: int|
                            0 <= jj < j + 1 && (#[trigger] list@[jj]).spec_window()@.overlaps(window@)
                                implies out@.contains(list@[jj]) by {
                            if jj == j {
                                assert(out@[out@.len() - 1] == list@[jj]);
                            } else {
                                assert(prev.contains(list@[jj]));
                                let m = choose|m: int| 0 <= m < prev.len() && prev[m] == list@[jj];
                                assert(out@[m] == list@[jj]);
                            }
                        }
                    }
                }
                j = j + 1;
            }
            proof {
                assert forall|a: int, jj: int|
                    0 <= a < i + 1 && 0 <= jj < self.spec_locations()[keys@[a]].len()
                        && (#[trigger] self.spec_locations()[keys@[a]][jj]).spec_window()@.overlaps(
                        window@,
                    ) implies out@.contains(self.spec_locations()[keys@[a]][jj]) by {
                    if a < i {
                        assert(before.contains(self.spec_locations()[keys@[a]][jj]));
                        let m = choose|m: int| 0 <= m < before.len() && before[m] == self.spec_locations()[keys@[a]][jj];
                        assert(out@[m] == before[m]);
                    } else {
                        assert(list@[jj] == self.spec_locations()[keys@[a]][jj]);
                    }
                }
            }
            i = i + 1;
        }
        proof {
            assert forall|k: u64, j: int|
                #[trigger] self.spec_locations().contains_key(k) && 0 <= j < self.spec_locations()[k].len()
                    && (#[trigger] self.spec_locations()[k][j]).spec_window()@.overlaps(window@)
                    implies out@.contains(self.spec_locations()[k][j]) by {
                assert(keys@.to_set().contains(k));
                let a = choose|a: int| 0 <= a < keys@.len() && keys@[a] == k;
                assert(self.spec_locations()[keys@[a]][j] == self.spec_locations()[k][j]);
            }
        }
        out
    }

    /// The currently hovered location.
    pub fn hovered(&self) -> (r: Option<MarkedLocation>)
        ensures
            self.spec_hovered() is None ==> r is None,
            r matches Some(location) ==> location.spec_id() == self.spec_hovered() && self.holds(
                location,
            ),
            self.spec_hovered() is Some && r is None ==> {
                let id = self.spec_hovered()->0;
                ||| !self.spec_locations().contains_key(id.spec_offset())
                ||| forall|i: int|
                    0 <= i < self.spec_locations()[id.spec_offset()].len()
                        ==> (#[trigger] self.spec_locations()[id.spec_offset()][i]).spec_id() != Some(
                        id,
                    )
            },
    {
        match self.hovered_location {
            Some(id) => self.get(id),
            None => None,
        }
    }

    /// The ID of the currently hovered location.
    pub fn hovered_location_id(&self) -> (r: Option<MarkedLocationId>)
        ensures
            r == self.spec_hovered(),
    {
        self.hovered_location
    }

    /// Sets the currently hovered location.
    pub fn set_hovered_location_id(&mut self, id: Option<MarkedLocationId>)
        ensures
            final(self).spec_hovered() == id,
            final(self).spec_locations() == old(self).spec_locations(),
            final(self).spec_next_id() == old(self).spec_next_id(),
            old(self).wf() ==> final(self).wf(),
    {
        self.hovered_location = id;
    }
}

} // verus!
