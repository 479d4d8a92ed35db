//! The interest tracker: which players hold which chunks.

use vstd::prelude::*;
use crate::chunk::Chunk;
use crate::connection::{find_by_id, has_id, index_of_id, ClientConnection};
use crate::grid::distinct;
use crate::lists::{contains_id, lemma_push_distinct, lemma_without, remove_id, without};
use crate::world::{lemma_same_chunks_same_grid, World, WorldError};

verus! {

impl World {
    /// Whether this world is `before` with the interest list of the chunk at
    /// `slot` replaced by `list`, and nothing else changed.
    pub open spec fn is_interest_change_of(&self, before: World, slot: int, list: Seq<u32>) -> bool {
        &&& self.chunks == before.chunks
        &&& self.same_shape(before)
        &&& self.players == before.players
        &&& self.physics_update_queue == before.physics_update_queue
        &&& self.to_update == before.to_update
        &&& self.spawn_point == before.spawn_point
        &&& self.spawn_range == before.spawn_range
        &&& self.player_loaded@.len() == before.player_loaded@.len()
        &&& forall|i: int|
            0 <= i < before.player_loaded@.len() ==> (#[trigger] self.player_loaded@[i])@ == (if i
                == slot {
                list
            } else {
                before.player_loaded@[i]@
            })
    }

    /// Whether this world is `before` with the player `id` removed from
    /// every interest list, and nothing else changed.
    pub open spec fn is_unload_of(&self, before: World, id: u32) -> bool {
        &&& self.chunks == before.chunks
        &&& self.same_shape(before)
        &&& self.players == before.players
        &&& self.physics_update_queue == before.physics_update_queue
        &&& self.to_update == before.to_update
        &&& self.spawn_point == before.spawn_point
        &&& self.spawn_range == before.spawn_range
        &&& self.player_loaded@.len() == before.player_loaded@.len()
        &&& forall|i: int|
            0 <= i < before.player_loaded@.len() ==> (#[trigger] self.player_loaded@[i])@
                == without(before.player_loaded@[i]@, id)
    }

    /// Records that the player `player_loading_id` holds the chunk
    /// `(chunk_x, chunk_y)` and hands out the chunk. Fails if the chunk is
    /// outside the world or the player holds it already. An id that is not a
    /// connected player's is not recorded; the chunk is handed out all the same.
    pub fn mark_chunk_loaded_by_id(
        &mut self,
        chunk_x: u32,
        chunk_y: u32,
        player_loading_id: u32,
    ) -> (r: Result<&Chunk, WorldError>)
        requires
            old(self).wf(),
        ensures
            final(self).wf(),
            !old(self).chunk_in_bounds(chunk_x as int, chunk_y as int) ==> (r matches Err(e) && e
                == WorldError::OutOfBoundsChunk(chunk_x, chunk_y)) && *final(self) == *old(self),
            old(self).chunk_in_bounds(chunk_x as int, chunk_y as int) && old(self).interest(
                chunk_x as int,
                chunk_y as int,
            ).contains(player_loading_id) ==> (r matches Err(e) && e
                == WorldError::ChunkAlreadyLoaded) && *final(self) == *old(self),
            old(self).chunk_in_bounds(chunk_x as int, chunk_y as int) && !old(self).interest(
                chunk_x as int,
                chunk_y as int,
            ).contains(player_loading_id) ==> (r matches Ok(c) && *c == old(self).chunk_at(
                chunk_x as int,
                chunk_y as int,
            )) && final(self).is_interest_change_of(
                *old(self),
                old(self).chunk_index(chunk_x as int, chunk_y as int),
                if has_id(old(self).players@, player_loading_id) {
                    old(self).interest(chunk_x as int, chunk_y as int).push(player_loading_id)
                } else {
                    old(self).interest(chunk_x as int, chunk_y as int)
                },
            ),
    {
        if chunk_x >= self.width_chunks || chunk_y >= self.height_chunks {
            return Err(WorldError::OutOfBoundsChunk(chunk_x, chunk_y));
        }
        let slot: usize = self.chunk_slot(chunk_x, chunk_y);
        if contains_id(&self.player_loaded[slot], player_loading_id) {
            return Err(WorldError::ChunkAlreadyLoaded);
        }
        if find_by_id(&self.players, player_loading_id).is_some() {
            self.player_loaded[slot].push(player_loading_id);
            proof {
                lemma_push_distinct(old(self).player_loaded@[slot as int]@, player_loading_id);
                lemma_same_chunks_same_grid(*old(self), *self);
                assert(self.interest_wf()) by {
                    assert forall|i: int| 0 <= i < self.player_loaded@.len() implies distinct(
                        (#[trigger] self.player_loaded@[i])@,
                    ) by {
                        if i != slot {
                            assert(self.player_loaded@[i] == old(self).player_loaded@[i]);
                        }
                    }
                    assert forall|i: int, k: int|
                        0 <= i < self.player_loaded@.len() && 0 <= k
                            < self.player_loaded@[i]@.len() implies has_id(
                        self.players@,
                        #[trigger] self.player_loaded@[i]@[k],
                    ) by {
                        if i != slot {
                            assert(self.player_loaded@[i] == old(self).player_loaded@[i]);
                        } else if k < old(self).player_loaded@[i]@.len() {
                            assert(self.player_loaded@[i]@[k] == old(self).player_loaded@[i]@[k]);
                        }
                    }
                }
            }
        }
        Ok(&self.chunks[slot])
    }

    /// Records that the player `player_loading_id` no longer holds the chunk
    /// `(chunk_x, chunk_y)`.
    pub fn unmark_loaded_chunk_for(
        &mut self,
        chunk_x: u32,
        chunk_y: u32,
        player_loading_id: u32,
    ) -> (r: Result<(), WorldError>)
        requires
            old(self).wf(),
        ensures
            final(self).wf(),
            !old(self).chunk_in_bounds(chunk_x as int, chunk_y as int) ==> r == Err::<
                (),
                WorldError,
            >(WorldError::OutOfBoundsChunk(chunk_x, chunk_y)) && *final(self) == *old(self),
            old(self).chunk_in_bounds(chunk_x as int, chunk_y as int) ==> r == Ok::<(), WorldError>(
                (),
            ) && final(self).is_interest_change_of(
                *old(self),
                old(self).chunk_index(chunk_x as int, chunk_y as int),
                without(old(self).interest(chunk_x as int, chunk_y as int), player_loading_id),
            ) && !final(self).interest(chunk_x as int, chunk_y as int).contains(player_loading_id),
    {
        if chunk_x >= self.width_chunks || chunk_y >= self.height_chunks {
            return Err(WorldError::OutOfBoundsChunk(chunk_x, chunk_y));
        }
        let slot: usize = self.chunk_slot(chunk_x, chunk_y);
        remove_id(&mut self.player_loaded[slot], player_loading_id);
        proof {
            lemma_same_chunks_same_grid(*old(self), *self);
            lemma_without(old(self).player_loaded@[slot as int]@, player_loading_id);
            assert(self.interest_wf()) by {
                assert forall|i: int| 0 <= i < self.player_loaded@.len() implies distinct(
                    (#[trigger] self.player_loaded@[i])@,
                ) by {
                    if i != slot {
                        assert(self.player_loaded@[i] == old(self).player_loaded@[i]);
                    }
                }
                assert forall|i: int, k: int|
                    0 <= i < self.player_loaded@.len() && 0 <= k
                        < self.player_loaded@[i]@.len() implies has_id(
                    self.players@,
                    #[trigger] self.player_loaded@[i]@[k],
                ) by {
                    if i != slot {
                        assert(self.player_loaded@[i] == old(self).player_loaded@[i]);
                    } else {
                        let v = self.player_loaded@[i]@[k];
                        assert(self.player_loaded@[i]@.contains(v));
                        assert(old(self).player_loaded@[i]@.contains(v));
                        let j = choose|j: int|
                            0 <= j < old(self).player_loaded@[i]@.len() && old(self).player_loaded@[i]@[j] == v;
                        assert(has_id(old(self).players@, old(self).player_loaded@[i]@[j]));
                    }
                }
            }
        }
        Ok(())
    }

    /// Forgets everything the player `player_loading_id` holds. Afterwards
    /// the player is in no interest list.
    pub fn unload_all_for(&mut self, player_loading_id: u32)
        requires
            old(self).grid_wf(),
            old(self).player_loaded@.len() == old(self).chunks@.len(),
        ensures
            final(self).is_unload_of(*old(self), player_loading_id),
            forall|i: int|
                0 <= i < final(self).player_loaded@.len() ==> !(#[trigger] final(self).player_loaded@[i])@.contains(player_loading_id),
            old(self).wf() ==> final(self).wf(),
    {
        let mut i: usize = 0;
        while i < self.player_loaded.len()
            invariant
                0 <= i <= self.player_loaded@.len(),
                self.player_loaded@.len() == old(self).player_loaded@.len(),
                self.chunks == old(self).chunks,
                self.same_shape(*old(self)),
                self.players == old(self).players,
                self.physics_update_queue == old(self).physics_update_queue,
                self.to_update == old(self).to_update,
                self.spawn_point == old(self).spawn_point,
                self.spawn_range == old(self).spawn_range,
                forall|k: int|
                    0 <= k < i ==> (#[trigger] self.player_loaded@[k])@ == without(
                        old(self).player_loaded@[k]@,
                        player_loading_id,
                    ),
                forall|k: int|
                    i <= k < self.player_loaded@.len() ==> (#[trigger] self.player_loaded@[k])
                        == old(self).player_loaded@[k],
            decreases self.player_loaded@.len() - i,
        {
            remove_id(&mut self.player_loaded[i], player_loading_id);
            i = i + 1;
        }
        proof {
            lemma_same_chunks_same_grid(*old(self), *self);
            self.lemma_unload_keeps_wf(*old(self), player_loading_id);
        }
    }

    /// Removing a player from every interest list leaves the player in none
    /// of them and keeps the lists sound, also where the player is no longer
    /// connected: this world may hold any players that include all those of
    /// `before` other than the removed one.
    pub proof fn lemma_unload_keeps_wf(&self, before: World, id: u32)
        requires
            self.is_unload_of(before, id),
        ensures
            forall|i: int|
                0 <= i < self.player_loaded@.len() ==> !(#[trigger] self.player_loaded@[i])@.contains(
                    id,
                ),
            before.wf() ==> self.wf(),
    {
        assert forall|i: int| 0 <= i < self.player_loaded@.len() implies !(
        #[trigger] self.player_loaded@[i])@.contains(id) by {
            lemma_without(before.player_loaded@[i]@, id);
        }
        if before.wf() {
            lemma_same_chunks_same_grid(before, *self);
            assert forall|i: int| 0 <= i < self.player_loaded@.len() implies distinct(
                (#[trigger] self.player_loaded@[i])@,
            ) by {
                lemma_without(before.player_loaded@[i]@, id);
                assert(distinct(before.player_loaded@[i]@));
            }
            assert forall|i: int, k: int|
                0 <= i < self.player_loaded@.len() && 0 <= k
                    < self.player_loaded@[i]@.len() implies has_id(
                self.players@,
                #[trigger] self.player_loaded@[i]@[k],
            ) by {
                lemma_without(before.player_loaded@[i]@, id);
                let v = self.player_loaded@[i]@[k];
                assert(self.player_loaded@[i]@.contains(v));
                assert(before.player_loaded@[i]@.contains(v));
                let j = choose|j: int|
                    0 <= j < before.player_loaded@[i]@.len() && before.player_loaded@[i]@[j] == v;
                assert(has_id(before.players@, before.player_loaded@[i]@[j]));
            }
        }
    }

    /// The connections of the players that hold the chunk
    /// `(chunk_x, chunk_y)`, in the order of its interest list.
    pub fn get_list_of_players_loading_chunk(&self, chunk_x: u32, chunk_y: u32) -> (r: Result<
        Vec<&ClientConnection>,
        WorldError,
    >)
        requires
            self.wf(),
        ensures
            !self.chunk_in_bounds(chunk_x as int, chunk_y as int) ==> (r matches Err(e) && e
                == WorldError::OutOfBoundsChunk(chunk_x, chunk_y)),
            self.chunk_in_bounds(chunk_x as int, chunk_y as int) ==> (r matches Ok(list)
                && list@.len() == self.interest(chunk_x as int, chunk_y as int).len()
                && forall|k: int|
                0 <= k < list@.len() ==> *(#[trigger] list@[k]) == self.players@[index_of_id(
                    self.players@,
                    self.interest(chunk_x as int, chunk_y as int)[k],
                )] && list@[k].id == self.interest(chunk_x as int, chunk_y as int)[k]),
    {
        if chunk_x >= self.width_chunks || chunk_y >= self.height_chunks {
            return Err(WorldError::OutOfBoundsChunk(chunk_x, chunk_y));
        }
        let slot: usize = self.chunk_slot(chunk_x, chunk_y);
        let ids: &Vec<u32> = &self.player_loaded[slot];
        let mut list: Vec<&ClientConnection> = Vec::new();
        let mut k: usize = 0;
        while k < ids.len()
            invariant
                self.wf(),
                slot < self.player_loaded@.len(),
                *ids == self.player_loaded@[slot as int],
                0 <= k <= ids@.len(),
                list@.len() == k,
                forall|j: int|
                    0 <= j < k ==> *(#[trigger] list@[j]) == self.players@[index_of_id(
                        self.players@,
                        ids@[j],
                    )] && list@[j].id == ids@[j],
            decreases ids@.len() - k,
        {
            assert(has_id(self.players@, self.player_loaded@[slot as int]@[k as int]));
            match find_by_id(&self.players, ids[k]) {
                Some(i) => {
                    list.push(&self.players[i]);
                },
                None => {},
            }
            k = k + 1;
        }
        Ok(list)
    }
}

} // verus!
