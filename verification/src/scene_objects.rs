use std::collections::HashMap;

use vstd::prelude::*;

use crate::opengl::{program_slot, ProgramType};

verus! {

broadcast use vstd::std_specs::hash::group_hash_axioms;

/// The objects of a scene: for each program, the identifiers of the objects
/// it draws, in the order they were added; and each object by its
/// identifier.
pub struct SceneObjects<T> {
    pub objects: [Vec<u128>; 2],
    pub objects_by_id: HashMap<u128, T>,
}

/// The position of the first `id` in `s`, if there is one.
pub open spec fn first_index(s: Seq<u128>, id: u128) -> Option<int>
    decreases s.len(),
{
    if s.len() == 0 {
        None
    } else if s[0] == id {
        Some(0)
    } else {
        match first_index(s.drop_first(), id) {
            Some(i) => Some(i + 1),
            None => None,
        }
    }
}

/// `s` without its first `id` (unchanged where there is none).
pub open spec fn without_first(s: Seq<u128>, id: u128) -> Seq<u128> {
    match first_index(s, id) {
        Some(i) => s.remove(i),
        None => s,
    }
}

/// The draw lists after removing `id`: from the first list that holds it,
/// its first occurrence goes; the other list stays as it is.
pub open spec fn lists_without(lists: Seq<Seq<u128>>, id: u128) -> Seq<Seq<u128>> {
    if lists[0].contains(id) {
        lists.update(0, without_first(lists[0], id))
    } else {
        lists.update(1, without_first(lists[1], id))
    }
}

impl<T> SceneObjects<T> {
    /// The draw lists, as sequences.
    pub open spec fn lists(&self) -> Seq<Seq<u128>> {
        seq![self.objects[0]@, self.objects[1]@]
    }

    /// A scene without objects.
    pub fn new() -> (s: Self)
        ensures
            s.lists() == seq![Seq::<u128>::empty(), Seq::<u128>::empty()],
            s.objects_by_id@ == Map::<u128, T>::empty(),
    {
        SceneObjects { objects: [Vec::new(), Vec::new()], objects_by_id: HashMap::new() }
    }

    /// Adds an object drawn by the program of kind `program_type`: its
    /// identifier goes to the end of that program's list, and the object is
    /// found by its identifier (in place of any object that had it).
    pub fn add_object(&mut self, program_type: ProgramType, id: u128, object: T)
        ensures
            final(self).lists() == old(self).lists().update(
                program_slot(program_type),
                old(self).lists()[program_slot(program_type)].push(id),
            ),
            final(self).objects_by_id@ == old(self).objects_by_id@.insert(id, object),
    {
        let slot: usize = match program_type {
            ProgramType::Common => 0,
            ProgramType::Instanced => 1,
        };
        self.objects[slot].push(id);
        self.objects_by_id.insert(id, object);
        assert(self.lists() =~= old(self).lists().update(slot as int, old(self).lists()[slot as int].push(id)));
    }

    /// Removes the object with identifier `id`, if there is one: it is no
    /// longer found by its identifier, and its first occurrence leaves the
    /// first draw list that holds it. Without such an object nothing changes.
    pub fn remove_object(&mut self, id: u128) -> (removed: Option<T>)
        ensures
            old(self).objects_by_id@.contains_key(id) ==> {
                &&& removed == Some(old(self).objects_by_id@[id])
                &&& final(self).objects_by_id@ == old(self).objects_by_id@.remove(id)
                &&& final(self).lists() == lists_without(old(self).lists(), id)
            },
            !old(self).objects_by_id@.contains_key(id) ==> {
                &&& removed is None
                &&& final(self).objects_by_id@ == old(self).objects_by_id@
                &&& final(self).lists() == old(self).lists()
            },
    {
        let removed = self.objects_by_id.remove(&id);
        if removed.is_none() {
            return removed;
        }
        let ghost map_after = self.objects_by_id@;
        proof {
            lemma_first_index(old(self).lists()[1], id);
            if !old(self).lists()[0].contains(id) && !old(self).lists()[1].contains(id) {
                assert(lists_without(old(self).lists(), id) =~= old(self).lists());
            }
        }
        let mut slot: usize = 0;
        while slot < 2
            invariant_except_break
                0 <= slot <= 2,
                forall|k: int| 0 <= k < slot ==> !old(self).lists()[k].contains(id),
                self.lists() == old(self).lists(),
                self.objects_by_id@ == map_after,
                !old(self).lists()[0].contains(id) && !old(self).lists()[1].contains(id) ==> lists_without(
                    old(self).lists(),
                    id,
                ) == old(self).lists(),
            ensures
                self.lists() == lists_without(old(self).lists(), id),
                self.objects_by_id@ == map_after,
            decreases 2 - slot,
        {
            proof {
                lemma_first_index(self.objects[slot as int]@, id);
            }
            match position(&self.objects[slot], id) {
                Some(index) => {
                    self.objects[slot].remove(index);
                    assert(self.lists() =~= lists_without(old(self).lists(), id));
                    break;
                },
                None => {},
            }
            slot += 1;
        }
        removed
    }
}

proof fn lemma_first_index(s: Seq<u128>, id: u128)
    ensures
        match first_index(s, id) {
            Some(i) => 0 <= i < s.len() && s[i] == id && forall|j: int| 0 <= j < i ==> s[j] != id,
            None => !s.contains(id),
        },
    decreases s.len(),
{
    if s.len() > 0 {
        lemma_first_index(s.drop_first(), id);
        if s[0] != id {
            if first_index(s.drop_first(), id) is Some {
                let i = first_index(s.drop_first(), id)->0;
                assert forall|j: int| 0 <= j < i + 1 implies s[j] != id by {
                    if j > 0 {
                        assert(s[j] == s.drop_first()[j - 1]);
                    }
                }
            }
            if s.contains(id) {
                let j = choose|j: int| 0 <= j < s.len() && s[j] == id;
                assert(s.drop_first()[j - 1] == id);
            }
        }
    }
}

/// The position of the first `id` in `v`, if there is one.
fn position(v: &Vec<u128>, id: u128) -> (index: Option<usize>)
    ensures
        match index {
            Some(i) => first_index(v@, id) == Some(i as int),
            None => first_index(v@, id) is None,
        },
{
    proof {
        lemma_first_index(v@, id);
    }
    let mut i: usize = 0;
    while i < v.len()
        invariant
            0 <= i <= v@.len(),
            forall|j: int| 0 <= j < i ==> v@[j] != id,
        decreases v@.len() - i,
    {
        if v[i] == id {
            proof {
                lemma_first_index_at(v@, id, i as int);
            }
            return Some(i);
        }
        i += 1;
    }
    proof {
        if first_index(v@, id) is Some {
            let k = first_index(v@, id)->0;
            assert(v@[k] == id);
        }
    }
    None
}

proof fn lemma_first_index_at(s: Seq<u128>, id: u128, i: int)
    requires
        0 <= i < s.len(),
        s[i] == id,
        forall|j: int| 0 <= j < i ==> s[j] != id,
    ensures
        first_index(s, id) == Some(i),
    decreases i,
{
    if i > 0 {
        lemma_first_index_at(s.drop_first(), id, i - 1);
    }
}

/// Adding an object under an identifier that the scene does not hold, to
/// either program's list, and then removing that identifier leaves the
/// scene's lists and objects as they were.
pub proof fn lemma_remove_undoes_add<T>(lists: Seq<Seq<u128>>, map: Map<u128, T>, slot: int, id: u128, object: T)
    requires
        lists.len() == 2,
        0 <= slot < 2,
        !map.contains_key(id),
        !lists[0].contains(id),
        !lists[1].contains(id),
    ensures
        lists_without(lists.update(slot, lists[slot].push(id)), id) == lists,
        map.insert(id, object).remove(id) == map,
{
    let added = lists.update(slot, lists[slot].push(id));
    let l = lists[slot];
    lemma_first_index(l, id);
    lemma_first_index_at(l.push(id), id, l.len() as int);
    assert(l.push(id).remove(l.len() as int) =~= l);
    assert(added[slot].contains(id)) by {
        assert(added[slot][l.len() as int] == id);
    }
    if slot == 1 {
        assert(added[0] == lists[0]);
    }
    assert(lists_without(added, id) =~= lists);
    assert(map.insert(id, object).remove(id) =~= map);
}

/// Each identifier of `ids` stands exactly once in the draw lists, and the
/// lists hold no other identifier: every object is drawn once, by one
/// program.
pub open spec fn listed_once(lists: Seq<Seq<u128>>, ids: Set<u128>) -> bool {
    &&& lists.len() == 2
    &&& forall|id: u128| ids.contains(id) <==> (lists[0].contains(id) || lists[1].contains(id))
    &&& forall|k: int, i: int, j: int|
        0 <= k < 2 && 0 <= i < j < lists[k].len() ==> #[trigger] lists[k][i] != #[trigger] lists[k][j]
    &&& forall|i: int, j: int|
        0 <= i < lists[0].len() && 0 <= j < lists[1].len() ==> #[trigger] lists[0][i] != #[trigger] lists[1][j]
}

proof fn lemma_remove_at(s: Seq<u128>, i: int)
    requires
        0 <= i < s.len(),
    ensures
        s.remove(i).len() == s.len() - 1,
        forall|j: int| 0 <= j < i ==> #[trigger] s.remove(i)[j] == s[j],
        forall|j: int| i <= j < s.len() - 1 ==> #[trigger] s.remove(i)[j] == s[j + 1],
{
}

/// Adding an object under a fresh identifier keeps every object drawn
/// exactly once.
pub proof fn lemma_add_keeps_listed_once(lists: Seq<Seq<u128>>, ids: Set<u128>, slot: int, id: u128)
    requires
        listed_once(lists, ids),
        0 <= slot < 2,
        !ids.contains(id),
    ensures
        listed_once(lists.update(slot, lists[slot].push(id)), ids.insert(id)),
{
    let l2 = lists.update(slot, lists[slot].push(id));
    let n = lists[slot].len() as int;
    assert forall|x: u128| ids.insert(id).contains(x) <==> (l2[0].contains(x) || l2[1].contains(x)) by {
        if x == id {
            assert(l2[slot][n] == id);
        } else {
            if l2[slot].contains(x) {
                let j = choose|j: int| 0 <= j < l2[slot].len() && l2[slot][j] == x;
                assert(lists[slot][j] == x);
            }
            if lists[slot].contains(x) {
                let j = choose|j: int| 0 <= j < lists[slot].len() && lists[slot][j] == x;
                assert(l2[slot][j] == x);
            }
        }
    }
    assert forall|k: int, i: int, j: int| 0 <= k < 2 && 0 <= i < j < l2[k].len() implies #[trigger] l2[k][i]
        != #[trigger] l2[k][j] by {
        if k == slot && j == n {
            assert(lists[slot].contains(l2[k][i]));
        }
    }
    assert forall|i: int, j: int| 0 <= i < l2[0].len() && 0 <= j < l2[1].len() implies #[trigger] l2[0][i]
        != #[trigger] l2[1][j] by {
        if slot == 0 && i == n {
            assert(lists[1].contains(l2[1][j]));
        }
        if slot == 1 && j == n {
            assert(lists[0].contains(l2[0][i]));
        }
    }
}

/// Removing an object keeps every remaining object drawn exactly once, and
/// the removed one no longer drawn.
pub proof fn lemma_remove_keeps_listed_once(lists: Seq<Seq<u128>>, ids: Set<u128>, id: u128)
    requires
        listed_once(lists, ids),
        ids.contains(id),
    ensures
        listed_once(lists_without(lists, id), ids.remove(id)),
{
    let k0: int = if lists[0].contains(id) { 0 } else { 1 };
    let l = lists[k0];
    lemma_first_index(l, id);
    let i = first_index(l, id)->0;
    lemma_remove_at(l, i);
    let l2 = lists_without(lists, id);
    assert(l2 == lists.update(k0, l.remove(i)));
    let r = l.remove(i);
    assert forall|x: u128| r.contains(x) <==> (l.contains(x) && x != id) by {
        if r.contains(x) {
            let j = choose|j: int| 0 <= j < r.len() && r[j] == x;
            if j < i {
                assert(l[j] == x);
                assert(l[j] != l[i]);
            } else {
                assert(l[j + 1] == x);
                assert(l[j + 1] != l[i]);
            }
        }
        if l.contains(x) && x != id {
            let j = choose|j: int| 0 <= j < l.len() && l[j] == x;
            if j < i {
                assert(r[j] == x);
            } else {
                assert(j != i);
                assert(r[j - 1] == x);
            }
        }
    }
    let other: int = 1 - k0;
    assert(!lists[other].contains(id)) by {
        if lists[other].contains(id) {
            let j = choose|j: int| 0 <= j < lists[other].len() && lists[other][j] == id;
            if k0 == 0 {
                assert(lists[0][i] != lists[1][j]);
            } else {
                assert(lists[0][j] != lists[1][i]);
            }
        }
    }
    assert forall|x: u128| ids.remove(id).contains(x) <==> (l2[0].contains(x) || l2[1].contains(x)) by {}
    assert forall|k: int, a: int, b: int| 0 <= k < 2 && 0 <= a < b < l2[k].len() implies #[trigger] l2[k][a]
        != #[trigger] l2[k][b] by {
        if k == k0 {
            let a1 = if a < i { a } else { a + 1 };
            let b1 = if b < i { b } else { b + 1 };
            assert(r[a] == l[a1] && r[b] == l[b1]);
            assert(lists[k0][a1] != lists[k0][b1]);
        }
    }
    assert forall|a: int, b: int| 0 <= a < l2[0].len() && 0 <= b < l2[1].len() implies #[trigger] l2[0][a]
        != #[trigger] l2[1][b] by {
        if k0 == 0 {
            let a1 = if a < i { a } else { a + 1 };
            assert(r[a] == l[a1]);
            assert(lists[0][a1] != lists[1][b]);
        } else {
            let b1 = if b < i { b } else { b + 1 };
            assert(r[b] == l[b1]);
            assert(lists[0][a] != lists[1][b1]);
        }
    }
}

} // verus!
