//! The locks of the requests for members that are under way.
use std::sync::Arc;
use vstd::prelude::*;

verus! {

/// For each room whose members are being requested, the lock that is held until
/// the request is over.
#[derive(Debug)]
pub struct MembersRequestLocks<L> {
    entries: Vec<(String, Arc<L>)>,
}

impl<L> View for MembersRequestLocks<L> {
    type V = Map<Seq<char>, Arc<L>>;

    closed spec fn view(&self) -> Map<Seq<char>, Arc<L>> {
        Map::new(
            |room_id: Seq<char>| exists|i: int| self.is_at(room_id, i),
            |room_id: Seq<char>| self.entries@[choose|i: int| self.is_at(room_id, i)].1,
        )
    }
}

impl<L> MembersRequestLocks<L> {
    spec fn is_at(self, room_id: Seq<char>, i: int) -> bool {
        0 <= i < self.entries@.len() && self.entries@[i].0@ == room_id
    }

    /// Whether no room has two locks.
    pub closed spec fn wf(self) -> bool {
        forall|i: int, j: int|
            0 <= i < j < self.entries@.len() ==> (#[trigger] self.entries@[i]).0@ != (
            #[trigger] self.entries@[j]).0@
    }

    proof fn lemma_at(self, room_id: Seq<char>, i: int)
        requires
            self.wf(),
            self.is_at(room_id, i),
        ensures
            self@.contains_key(room_id),
            self@[room_id] == self.entries@[i].1,
    {
        let j = choose|j: int| self.is_at(room_id, j);
        assert(self.is_at(room_id, j));
    }

    /// No request is under way.
    pub fn new() -> (res: Self)
        ensures
            res.wf(),
            res@ == Map::<Seq<char>, Arc<L>>::empty(),
    {
        let res = MembersRequestLocks { entries: Vec::new() };
        assert(res@ =~= Map::<Seq<char>, Arc<L>>::empty());
        res
    }

    fn find(&self, room_id: &String) -> (res: Option<usize>)
        ensures
            res matches Some(i) ==> self.is_at(room_id@, i as int),
            res is None ==> forall|i: int| !self.is_at(room_id@, i),
    {
        let mut i: usize = 0;
        while i < self.entries.len()
            invariant
                i <= self.entries@.len(),
                forall|j: int| 0 <= j < i ==> !self.is_at(room_id@, j),
            decreases self.entries@.len() - i,
        {
            if self.entries[i].0 == *room_id {
                return Some(i);
            }
            i += 1;
        }
        None
    }

    /// The lock of the request for the members of the room `room_id`, if one is
    /// under way.
    pub fn get(&self, room_id: &String) -> (res: Option<Arc<L>>)
        requires
            self.wf(),
        ensures
            res is Some <==> self@.contains_key(room_id@),
            res matches Some(lock) ==> lock == self@[room_id@],
    {
        match self.find(room_id) {
            Some(i) => {
                proof {
                    self.lemma_at(room_id@, i as int);
                }
                Some(share(&self.entries[i].1))
            },
            None => None,
        }
    }

    /// Makes `lock` the lock of the request for the members of the room
    /// `room_id`.
    pub fn insert(&mut self, room_id: String, lock: Arc<L>)
        requires
            old(self).wf(),
        ensures
            final(self).wf(),
            final(self)@ == old(self)@.insert(room_id@, lock),
    {
        self.remove(&room_id);
        let ghost before = *self;
        self.entries.push((room_id, lock));
        proof {
            let n = before.entries@.len() as int;
            assert(forall|i: int| 0 <= i < n ==> self.entries@[i] == before.entries@[i]);
            assert(self.entries@[n] == (room_id, lock));
            assert forall|i: int| 0 <= i < n implies self.entries@[i].0@ != room_id@ by {
                if before.entries@[i].0@ == room_id@ {
                    before.lemma_at(room_id@, i);
                }
            }
            assert(self.wf());
            assert forall|other: Seq<char>|
                #[trigger] self@.contains_key(other) <==> before@.insert(room_id@, lock).contains_key(
                    other,
                ) by {
                if self@.contains_key(other) {
                    let i = choose|i: int| self.is_at(other, i);
                    if i < n {
                        before.lemma_at(other, i);
                    }
                }
                if before@.contains_key(other) {
                    let i = choose|i: int| before.is_at(other, i);
                    self.lemma_at(other, i);
                }
                if other == room_id@ {
                    self.lemma_at(other, n);
                }
            }
            assert forall|other: Seq<char>| #[trigger] self@.contains_key(other) implies self@[other]
                == before@.insert(room_id@, lock)[other] by {
                let i = choose|i: int| self.is_at(other, i);
                self.lemma_at(other, i);
                if i < n {
                    before.lemma_at(other, i);
                }
            }
            assert(self@ =~= before@.insert(room_id@, lock));
            assert(before@.insert(room_id@, lock) =~= old(self)@.insert(room_id@, lock));
        }
    }

    /// Forgets the request for the members of the room `room_id`.
    pub fn remove(&mut self, room_id: &String)
        requires
            old(self).wf(),
        ensures
            final(self).wf(),
            final(self)@ == old(self)@.remove(room_id@),
    {
        let ghost before = *self;
        match self.find(room_id) {
            Some(found) => {
                let _ = self.entries.remove(found);
                proof {
                    let at = found as int;
                    assert(forall|i: int|
                        0 <= i < self.entries@.len() ==> self.entries@[i] == before.entries@[if i
                            < at {
                            i
                        } else {
                            i + 1
                        }]);
                    assert(self.wf());
                    assert forall|other: Seq<char>|
                        #[trigger] self@.contains_key(other) <==> before@.remove(
                            room_id@,
                        ).contains_key(other) by {
                        if self@.contains_key(other) {
                            let i = choose|i: int| self.is_at(other, i);
                            let j = if i < at {
                                i
                            } else {
                                i + 1
                            };
                            before.lemma_at(other, j);
                            assert(before.entries@[j].0@ != before.entries@[at].0@);
                        }
                        if before@.contains_key(other) && other != room_id@ {
                            let j = choose|j: int| before.is_at(other, j);
                            let i = if j < at {
                                j
                            } else {
                                j - 1
                            };
                            self.lemma_at(other, i);
                        }
                    }
                    assert forall|other: Seq<char>| #[trigger] self@.contains_key(other) implies self@[other]
                        == before@.remove(room_id@)[other] by {
                        let i = choose|i: int| self.is_at(other, i);
                        self.lemma_at(other, i);
                        let j = if i < at {
                            i
                        } else {
                            i + 1
                        };
                        before.lemma_at(other, j);
                    }
                    assert(self@ =~= before@.remove(room_id@));
                }
            },
            None => {
                assert(before@ =~= before@.remove(room_id@));
            },
        }
    }
}

/// Another handle on the same lock, from `<std::sync::Arc<T> as Clone>::clone`.
///
/// Claimed of it: the handle is one on what `lock` is a handle on.
#[verifier::external_body]
pub(crate) fn share<L>(lock: &Arc<L>) -> (res: Arc<L>)
    ensures
        res == *lock,
{
    Arc::clone(lock)
}

} // verus!
