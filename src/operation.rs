//! Deletions of infrastructure objects, and the objects they leave to refresh.

use vstd::prelude::*;

verus! {

/// The kinds of infrastructure objects.
#[derive(Clone, Copy, Debug, PartialEq, Eq, Structural, Hash)]
pub enum ObjectType {
    TrackSection,
    Signal,
    SpeedSection,
    Detector,
    TrackSectionLink,
    Switch,
    SwitchType,
    BufferStop,
    Route,
    OperationalPoint,
    Catenary,
}

/// The objects to refresh, by kind: at most one entry per kind, and no
/// object twice in an entry.
#[derive(Debug)]
pub struct UpdateLists {
    pub entries: Vec<(ObjectType, Vec<String>)>,
}

impl UpdateLists {
    pub open spec fn wf(&self) -> bool {
        &&& forall|i: int, j: int| 0 <= i < j < self.entries@.len() ==> #[trigger] self.entries@[i].0 != #[trigger] self.entries@[j].0
        &&& forall|i: int, a: int, b: int| 0 <= i < self.entries@.len() && 0 <= a < b < self.entries@[i].1@.len()
            ==> #[trigger] self.entries@[i].1@[a]@ != #[trigger] self.entries@[i].1@[b]@
    }

    /// Whether the lists hold an entry for kind `t`.
    pub open spec fn has_kind(&self, t: ObjectType) -> bool {
        exists|i: int| 0 <= i < self.entries@.len() && #[trigger] self.entries@[i].0 == t
    }

    /// The objects of kind `t` to refresh.
    pub open spec fn ids_of(&self, t: ObjectType) -> Set<Seq<char>> {
        Set::new(|id: Seq<char>| exists|i: int, j: int| 0 <= i < self.entries@.len() && #[trigger] self.entries@[i].0 == t
            && 0 <= j < self.entries@[i].1@.len() && #[trigger] self.entries@[i].1@[j]@ == id)
    }

    /// No object to refresh.
    pub fn new() -> (r: UpdateLists)
        ensures
            r.wf(),
            forall|t: ObjectType| !r.has_kind(t),
            forall|t: ObjectType| #[trigger] r.ids_of(t) == Set::<Seq<char>>::empty(),
    {
        let r = UpdateLists { entries: Vec::new() };
        assert forall|t: ObjectType| #[trigger] r.ids_of(t) == Set::<Seq<char>>::empty() by {
            assert(r.ids_of(t) =~= Set::<Seq<char>>::empty());
        }
        r
    }
}

/// The deletion of one object.
#[derive(Clone, Debug, PartialEq, Eq)]
pub struct DeleteOperation {
    pub obj_type: ObjectType,
    pub obj_id: String,
}

impl DeleteOperation {
    /// Records the deleted object among the objects to refresh.
    pub fn get_updated_objects(&self, update_lists: &mut UpdateLists)
        requires
            old(update_lists).wf(),
        ensures
            final(update_lists).wf(),
            forall|t: ObjectType| #[trigger] final(update_lists).has_kind(t) == (old(update_lists).has_kind(t) || t == self.obj_type),
            forall|t: ObjectType| #[trigger] final(update_lists).ids_of(t) == if t == self.obj_type {
                old(update_lists).ids_of(t).insert(self.obj_id@)
            } else {
                old(update_lists).ids_of(t)
            },
    {
        let ghost before = *update_lists;
        let mut i: usize = 0;
        while i < update_lists.entries.len() && update_lists.entries[i].0 != self.obj_type
            invariant
                *update_lists == before,
                i <= before.entries@.len(),
                forall|k: int| 0 <= k < i ==> #[trigger] before.entries@[k].0 != self.obj_type,
            decreases before.entries@.len() - i,
        {
            i = i + 1;
        }
        if i == update_lists.entries.len() {
            let mut ids: Vec<String> = Vec::new();
            ids.push(self.obj_id.clone());
            update_lists.entries.push((self.obj_type, ids));
            proof {
                let after = *update_lists;
                let n = before.entries@.len() as int;
                assert(after.entries@[n].1@[0]@ == self.obj_id@);
                assert(after.entries@ =~= before.entries@.push((self.obj_type, after.entries@[n].1)));
                assert forall|a: int, b: int| 0 <= a < b < after.entries@.len() implies #[trigger] after.entries@[a].0 != #[trigger] after.entries@[b].0 by {
                    if b == n {
                        assert(before.entries@[a].0 != self.obj_type);
                    }
                }
                assert(after.wf());
                assert forall|t: ObjectType| #[trigger] after.has_kind(t) == (before.has_kind(t) || t == self.obj_type) by {
                    if before.has_kind(t) {
                        let k = choose|k: int| 0 <= k < before.entries@.len() && #[trigger] before.entries@[k].0 == t;
                        assert(after.entries@[k].0 == t);
                    }
                    if t == self.obj_type {
                        assert(after.entries@[n].0 == t);
                    }
                }
                assert forall|t: ObjectType| #[trigger] after.ids_of(t) == if t == self.obj_type {
                    before.ids_of(t).insert(self.obj_id@)
                } else {
                    before.ids_of(t)
                } by {
                    let expected = if t == self.obj_type {
                        before.ids_of(t).insert(self.obj_id@)
                    } else {
                        before.ids_of(t)
                    };
                    assert forall|id: Seq<char>| after.ids_of(t).contains(id) implies expected.contains(id) by {
                        let (k, j) = choose|k: int, j: int| 0 <= k < after.entries@.len() && #[trigger] after.entries@[k].0 == t
                            && 0 <= j < after.entries@[k].1@.len() && #[trigger] after.entries@[k].1@[j]@ == id;
                        if k < n {
                            assert(before.entries@[k].0 == t && before.entries@[k].1@[j]@ == id);
                        }
                    }
                    assert forall|id: Seq<char>| expected.contains(id) implies after.ids_of(t).contains(id) by {
                        if before.ids_of(t).contains(id) {
                            let (k, j) = choose|k: int, j: int| 0 <= k < before.entries@.len() && #[trigger] before.entries@[k].0 == t
                                && 0 <= j < before.entries@[k].1@.len() && #[trigger] before.entries@[k].1@[j]@ == id;
                            assert(after.entries@[k].0 == t && after.entries@[k].1@[j]@ == id);
                        } else {
                            assert(after.entries@[n].0 == t && after.entries@[n].1@[0]@ == id);
                        }
                    }
                    assert(after.ids_of(t) =~= expected);
                }
            }
        } else {
            proof {
                assert(before.has_kind(self.obj_type));
            }
            let ghost old_ids = before.entries@[i as int].1@;
            let mut j: usize = 0;
            while j < update_lists.entries[i].1.len() && !(update_lists.entries[i].1[j] == self.obj_id)
                invariant
                    *update_lists == before,
                    i < before.entries@.len(),
                    before.entries@[i as int].1@ == old_ids,
                    j <= old_ids.len(),
                    forall|m: int| 0 <= m < j ==> #[trigger] old_ids[m]@ != self.obj_id@,
                decreases old_ids.len() - j,
            {
                j = j + 1;
            }
            if j < update_lists.entries[i].1.len() {
                proof {
                    assert(before.ids_of(self.obj_type).contains(self.obj_id@)) by {
                        assert(before.entries@[i as int].0 == self.obj_type);
                        assert(before.entries@[i as int].1@[j as int]@ == self.obj_id@);
                    }
                    assert forall|t: ObjectType| #[trigger] before.ids_of(t) == if t == self.obj_type {
                        before.ids_of(t).insert(self.obj_id@)
                    } else {
                        before.ids_of(t)
                    } by {
                        if t == self.obj_type {
                            assert(before.ids_of(t).insert(self.obj_id@) =~= before.ids_of(t));
                        }
                    }
                }
                return;
            }
            let mut entry = update_lists.entries.remove(i);
            entry.1.push(self.obj_id.clone());
            update_lists.entries.insert(i, entry);
            proof {
                let after = *update_lists;
                assert(after.entries@ =~= before.entries@.update(i as int, after.entries@[i as int]));
                assert(after.entries@[i as int].1@ =~= old_ids.push(after.entries@[i as int].1@[old_ids.len() as int]));
                assert(after.entries@[i as int].1@[old_ids.len() as int]@ == self.obj_id@);
                assert(after.entries@[i as int].0 == self.obj_type);
                assert forall|a: int, b: int| 0 <= a < b < after.entries@.len() implies #[trigger] after.entries@[a].0 != #[trigger] after.entries@[b].0 by {
                    assert(before.entries@[a].0 == after.entries@[a].0);
                    assert(before.entries@[b].0 == after.entries@[b].0);
                }
                assert forall|k: int, a: int, b: int| 0 <= k < after.entries@.len() && 0 <= a < b < after.entries@[k].1@.len()
                    implies #[trigger] after.entries@[k].1@[a]@ != #[trigger] after.entries@[k].1@[b]@ by {
                    if k != i {
                        assert(after.entries@[k] == before.entries@[k]);
                    } else if b < old_ids.len() {
                        assert(after.entries@[k].1@[a] == old_ids[a] && after.entries@[k].1@[b] == old_ids[b]);
                    } else {
                        assert(after.entries@[k].1@[a] == old_ids[a]);
                    }
                }
                assert(after.wf());
                assert forall|t: ObjectType| #[trigger] after.has_kind(t) == (before.has_kind(t) || t == self.obj_type) by {
                    if before.has_kind(t) {
                        let k = choose|k: int| 0 <= k < before.entries@.len() && #[trigger] before.entries@[k].0 == t;
                        assert(after.entries@[k].0 == t);
                    }
                    if after.has_kind(t) {
                        let k = choose|k: int| 0 <= k < after.entries@.len() && #[trigger] after.entries@[k].0 == t;
                        assert(before.entries@[k].0 == t);
                    }
                }
                assert forall|t: ObjectType| #[trigger] after.ids_of(t) == if t == self.obj_type {
                    before.ids_of(t).insert(self.obj_id@)
                } else {
                    before.ids_of(t)
                } by {
                    let expected = if t == self.obj_type {
                        before.ids_of(t).insert(self.obj_id@)
                    } else {
                        before.ids_of(t)
                    };
                    assert forall|id: Seq<char>| after.ids_of(t).contains(id) implies expected.contains(id) by {
                        let (k, m) = choose|k: int, m: int| 0 <= k < after.entries@.len() && #[trigger] after.entries@[k].0 == t
                            && 0 <= m < after.entries@[k].1@.len() && #[trigger] after.entries@[k].1@[m]@ == id;
                        if k != i || m < old_ids.len() {
                            assert(before.entries@[k].0 == t && before.entries@[k].1@[m]@ == id);
                        }
                    }
                    assert forall|id: Seq<char>| expected.contains(id) implies after.ids_of(t).contains(id) by {
                        if before.ids_of(t).contains(id) {
                            let (k, m) = choose|k: int, m: int| 0 <= k < before.entries@.len() && #[trigger] before.entries@[k].0 == t
                                && 0 <= m < before.entries@[k].1@.len() && #[trigger] before.entries@[k].1@[m]@ == id;
                            assert(after.entries@[k].0 == t && after.entries@[k].1@[m]@ == id);
                        } else {
                            assert(after.entries@[i as int].0 == t && after.entries@[i as int].1@[old_ids.len() as int]@ == id);
                        }
                    }
                    assert(after.ids_of(t) =~= expected);
                }
            }
        }
    }
}

} // verus!
