//! Rivalries: directed edges between players. A rivalry is mutual iff the
//! reverse edge also exists; the two directions are created independently.
#![verifier::loop_isolation(false)]

use crate::store::{
    first_where, lemma_first_where_char, lemma_first_where_push, rivalry_pred, Store,
};
use crate::types::{NewRivalry, Rivalry, RivalryV, StoreError};
use vstd::prelude::*;

verus! {

/// The view of a rivalry creation result.
pub open spec fn rivalry_res_v(r: Result<Rivalry, StoreError>) -> Result<RivalryV, StoreError> {
    match r {
        Ok(v) => Ok(v@),
        Err(e) => Err(e),
    }
}

/// The full effect of one rivalry creation: rejected when an endpoint is
/// missing or the edge already exists, otherwise the edge is appended.
pub open spec fn create_rivalry_post(
    prev: Store,
    next: Store,
    challenger_id: int,
    rival_id: int,
    now: int,
    res: Result<RivalryV, StoreError>,
) -> bool {
    if !prev.has_player(challenger_id) || !prev.has_player(rival_id) {
        &&& res == Err::<RivalryV, StoreError>(StoreError::NotFound)
        &&& next == prev
    } else if prev.has_rivalry(challenger_id, rival_id) {
        &&& res == Err::<RivalryV, StoreError>(StoreError::Conflict)
        &&& next == prev
    } else {
        let edge = RivalryV { challenger_id, rival_id, established_at: now };
        &&& res == Ok::<RivalryV, StoreError>(edge)
        &&& next.rivalries_v() == prev.rivalries_v().push(edge)
        &&& next.rivalry_at(challenger_id, rival_id) == Some(edge)
        &&& (forall|x: int, y: int|
            !(x == challenger_id && y == rival_id) ==> next.rivalry_at(x, y) == prev.rivalry_at(
                x,
                y,
            ))
        &&& next.songs == prev.songs
        &&& next.extras == prev.extras
        &&& next.players == prev.players
        &&& next.scores == prev.scores
        &&& next.skills == prev.skills
        &&& next.next_song_id == prev.next_song_id
        &&& next.next_player_id == prev.next_player_id
    }
}

impl Rivalry {
    /// Whether this rivalry is mutual: true iff the edge with challenger
    /// and rival swapped also exists. A pure read, no write side effects.
    pub fn is_mutual(&self, store: &Store) -> (r: bool)
        ensures
            r == store.has_rivalry(self.rival_id as int, self.challenger_id as int),
    {
        store.rivalry_exists(self.rival_id, self.challenger_id)
    }
}

impl NewRivalry {
    /// Bundles the two endpoints of a rivalry edge to be created.
    pub fn new(challenger_id: i32, rival_id: i32) -> (r: NewRivalry)
        ensures
            r.challenger_id == challenger_id,
            r.rival_id == rival_id,
    {
        NewRivalry { challenger_id, rival_id }
    }

    /// Creates the rivalry edge. Fails with `NotFound` when an endpoint
    /// player does not exist, and with `Conflict` when the edge is already
    /// present; otherwise the edge is inserted and returned.
    pub fn create(&self, store: &mut Store, now: i64) -> (r: Result<Rivalry, StoreError>)
        requires
            old(store).wf(),
        ensures
            final(store).wf(),
            create_rivalry_post(
                *old(store),
                *final(store),
                self.challenger_id as int,
                self.rival_id as int,
                now as int,
                rivalry_res_v(r),
            ),
    {
        if store.find_player_index(self.challenger_id).is_none() || store.find_player_index(
            self.rival_id,
        ).is_none() {
            return Err(StoreError::NotFound);
        }
        if store.rivalry_exists(self.challenger_id, self.rival_id) {
            return Err(StoreError::Conflict);
        }
        let ghost old_rivalries = store.rivalries_v();
        let edge = Rivalry {
            challenger_id: self.challenger_id,
            rival_id: self.rival_id,
            established_at: now,
        };
        let returned = Rivalry {
            challenger_id: self.challenger_id,
            rival_id: self.rival_id,
            established_at: now,
        };
        let ghost edge_v = edge@;
        store.rivalries.push(edge);
        proof {
            assert(store.rivalries_v() =~= old_rivalries.push(edge_v));
            lemma_first_where_push(
                old_rivalries,
                rivalry_pred(self.challenger_id as int, self.rival_id as int),
                edge_v,
            );
            assert(store.rivalry_at(self.challenger_id as int, self.rival_id as int) == Some(
                edge_v,
            ));
            assert forall|x: int, y: int|
                !(x == self.challenger_id as int && y == self.rival_id as int) implies store
                .rivalry_at(x, y) == old(store).rivalry_at(x, y) by {
                lemma_first_where_push(old_rivalries, rivalry_pred(x, y), edge_v);
            }
            assert(store.songs_v() == old(store).songs_v());
            assert(store.extras_v() == old(store).extras_v());
            assert(store.players_v() == old(store).players_v());
            assert(store.scores_v() == old(store).scores_v());
            assert(store.skills_v() == old(store).skills_v());
            assert forall|a: int, b: int|
                0 <= a < b < store.rivalries_v().len() implies !(store.rivalries_v()[a].challenger_id
                == store.rivalries_v()[b].challenger_id && store.rivalries_v()[a].rival_id
                == store.rivalries_v()[b].rival_id) by {
                assert(store.rivalries_v()[a] == old_rivalries[a]);
                if b < old_rivalries.len() {
                    assert(store.rivalries_v()[b] == old_rivalries[b]);
                } else {
                    assert(store.rivalries_v()[b] == edge_v);
                    if old_rivalries[a].challenger_id == self.challenger_id as int
                        && old_rivalries[a].rival_id == self.rival_id as int {
                        lemma_first_where_char(
                            old_rivalries,
                            rivalry_pred(self.challenger_id as int, self.rival_id as int),
                        );
                        assert(false);
                    }
                }
            }
            assert forall|k: int| 0 <= k < store.rivalries_v().len() implies store.has_player(
                store.rivalries_v()[k].challenger_id,
            ) && store.has_player(store.rivalries_v()[k].rival_id) by {
                if k < old_rivalries.len() {
                    assert(store.rivalries_v()[k] == old_rivalries[k]);
                } else {
                    assert(store.rivalries_v()[k] == edge_v);
                }
            }
            assert(store.wf());
        }
        Ok(returned)
    }
}

/// An edge standing alone is not mutual; after the reverse edge is inserted,
/// the check on either direction reports mutual. The endpoints of the
/// existing edge are players by well-formedness, so the reverse insert is
/// owed success when the reverse edge is absent.
pub proof fn lemma_rivalry_mutuality(
    s0: Store,
    s1: Store,
    a: int,
    b: int,
    now: int,
    res: Result<RivalryV, StoreError>,
)
    requires
        s0.wf(),
        s0.has_rivalry(a, b),
        !s0.has_rivalry(b, a),
        create_rivalry_post(s0, s1, b, a, now, res),
    ensures
        res is Ok,
        s1.has_rivalry(a, b),
        s1.has_rivalry(b, a),
{
    lemma_first_where_char(s0.rivalries_v(), rivalry_pred(a, b));
    let k = choose|k: int|
        0 <= k < s0.rivalries_v().len() && #[trigger] s0.rivalries_v()[k] == first_where(
            s0.rivalries_v(),
            rivalry_pred(a, b),
        ).unwrap() && rivalry_pred(a, b)(s0.rivalries_v()[k]) && (forall|j: int|
            0 <= j < k ==> !rivalry_pred(a, b)(s0.rivalries_v()[j]));
    assert(s0.has_player(s0.rivalries_v()[k].challenger_id));
    assert(s0.has_player(s0.rivalries_v()[k].rival_id));
    assert(s0.has_player(a) && s0.has_player(b));
    assert(s1.rivalry_at(a, b) == s0.rivalry_at(a, b));
}

} // verus!
