//! The process-wide directory: matches by identifier, players by session,
//! and the mapping from each session to the match it most recently opened.

use vstd::prelude::*;
use rand::Rng;
use crate::cells::{GameError, Variant};
use crate::coordinator::{ClickOutcome, GameMode, GameVariant, Role, click_transition};
use crate::hnefatafl::GameState;

verus! {

/// What the directory knows of a session: the chosen name and the role
/// the session plays.
pub struct Player {
    pub username: String,
    pub role: Role,
}

/// The process-wide directory of matches and players.
pub struct Registry {
    /// Matches in creation order; an ended match leaves a vacant slot.
    pub games: Vec<Option<GameVariant>>,
    /// Player record of each registered session.
    pub players: Vec<(String, Player)>,
    /// The match each session most recently opened.
    pub session_game: Vec<(String, usize)>,
}

// ---------------------------------------------------------------------------
// Association lists keyed by session identifier
// ---------------------------------------------------------------------------

/// No two entries carry the same key.
pub open spec fn keys_unique<V>(s: Seq<(String, V)>) -> bool {
    forall|i: int, j: int| 0 <= i < j < s.len() ==> (#[trigger] s[i]).0@ != (#[trigger] s[j]).0@
}

/// The value under the first entry with key `k`, if any.
pub open spec fn find_key<V>(s: Seq<(String, V)>, k: Seq<char>) -> Option<V>
    decreases s.len(),
{
    if s.len() == 0 {
        Option::None
    } else if s[0].0@ == k {
        Some(s[0].1)
    } else {
        find_key(s.drop_first(), k)
    }
}

proof fn lemma_find_key_at<V>(s: Seq<(String, V)>, k: Seq<char>, i: int)
    requires
        0 <= i < s.len(),
        s[i].0@ == k,
        forall|j: int| 0 <= j < i ==> (#[trigger] s[j]).0@ != k,
    ensures
        find_key(s, k) == Some(s[i].1),
    decreases s.len(),
{
    if i > 0 {
        lemma_find_key_at(s.drop_first(), k, i - 1);
    }
}

proof fn lemma_find_key_absent<V>(s: Seq<(String, V)>, k: Seq<char>)
    requires
        forall|j: int| 0 <= j < s.len() ==> (#[trigger] s[j]).0@ != k,
    ensures
        find_key(s, k) is None,
    decreases s.len(),
{
    if s.len() > 0 {
        lemma_find_key_absent(s.drop_first(), k);
    }
}

/// Replacing the entry at `i` in place changes only its own key's value.
proof fn lemma_find_key_update<V>(s: Seq<(String, V)>, i: int, e: (String, V), k: Seq<char>)
    requires
        0 <= i < s.len(),
        e.0@ == s[i].0@,
        k != s[i].0@,
    ensures
        find_key(s.update(i, e), k) == find_key(s, k),
    decreases s.len(),
{
    if s.len() > 0 {
        if i == 0 {
            assert(s.update(i, e).drop_first() =~= s.drop_first());
        } else {
            assert(s.update(i, e).drop_first() =~= s.drop_first().update(i - 1, e));
            lemma_find_key_update(s.drop_first(), i - 1, e, k);
        }
    }
}

/// Appending a fresh entry changes only its own key's value.
proof fn lemma_find_key_push<V>(s: Seq<(String, V)>, e: (String, V), k: Seq<char>)
    requires
        k != e.0@,
    ensures
        find_key(s.push(e), k) == find_key(s, k),
    decreases s.len(),
{
    if s.len() == 0 {
        assert(s.push(e)[0] == e);
        assert(s.push(e).drop_first() =~= Seq::<(String, V)>::empty());
        assert(find_key(s.push(e).drop_first(), k) is None);
    } else {
        assert(s.push(e).drop_first() =~= s.drop_first().push(e));
        lemma_find_key_push(s.drop_first(), e, k);
    }
}

/// Appending an entry makes its value the one found under its key,
/// provided the key was absent.
proof fn lemma_find_key_push_hit<V>(s: Seq<(String, V)>, e: (String, V))
    requires
        find_key(s, e.0@) is None,
    ensures
        find_key(s.push(e), e.0@) == Some(e.1),
    decreases s.len(),
{
    if s.len() == 0 {
        assert(s.push(e)[0] == e);
    } else {
        assert(s.push(e).drop_first() =~= s.drop_first().push(e));
        if s[0].0@ != e.0@ {
            lemma_find_key_push_hit(s.drop_first(), e);
        }
    }
}

/// Removing the entry at `i` changes only its own key's value, which
/// becomes absent when keys are unique.
proof fn lemma_find_key_remove<V>(s: Seq<(String, V)>, i: int, k: Seq<char>)
    requires
        0 <= i < s.len(),
        k != s[i].0@,
    ensures
        find_key(s.remove(i), k) == find_key(s, k),
    decreases s.len(),
{
    if i == 0 {
        assert(s.remove(0) =~= s.drop_first());
    } else {
        assert(s.remove(i).drop_first() =~= s.drop_first().remove(i - 1));
        lemma_find_key_remove(s.drop_first(), i - 1, k);
    }
}

proof fn lemma_find_key_remove_gone<V>(s: Seq<(String, V)>, i: int)
    requires
        0 <= i < s.len(),
        keys_unique(s),
    ensures
        find_key(s.remove(i), s[i].0@) is None,
{
    assert forall|j: int| 0 <= j < s.remove(i).len() implies (#[trigger] s.remove(i)[j]).0@
        != s[i].0@ by {
        if j < i {
            assert(s.remove(i)[j] == s[j]);
        } else {
            assert(s.remove(i)[j] == s[j + 1]);
        }
    }
    lemma_find_key_absent(s.remove(i), s[i].0@);
}

/// The key of the first entry bound to match `id` under a session other
/// than `session`, if any.
pub open spec fn find_other(m: Seq<(String, usize)>, id: int, session: Seq<char>) -> Option<
    Seq<char>,
>
    decreases m.len(),
{
    if m.len() == 0 {
        Option::None
    } else if m[0].1 == id && m[0].0@ != session {
        Some(m[0].0@)
    } else {
        find_other(m.drop_first(), id, session)
    }
}

proof fn lemma_find_other_at(m: Seq<(String, usize)>, id: int, session: Seq<char>, i: int)
    requires
        0 <= i < m.len(),
        m[i].1 == id && m[i].0@ != session,
        forall|j: int| 0 <= j < i ==> !((#[trigger] m[j]).1 == id && m[j].0@ != session),
    ensures
        find_other(m, id, session) == Some(m[i].0@),
    decreases m.len(),
{
    if i > 0 {
        lemma_find_other_at(m.drop_first(), id, session, i - 1);
    }
}

proof fn lemma_find_other_absent(m: Seq<(String, usize)>, id: int, session: Seq<char>)
    requires
        forall|j: int| 0 <= j < m.len() ==> !((#[trigger] m[j]).1 == id && m[j].0@ != session),
    ensures
        find_other(m, id, session) is None,
    decreases m.len(),
{
    if m.len() > 0 {
        lemma_find_other_absent(m.drop_first(), id, session);
    }
}

/// The role the second player of an online match receives, opposite to
/// the role the first player chose.
pub open spec fn complement_role(r: Role) -> Role {
    match r {
        Role::Attacker => Role::Defender,
        _ => Role::Attacker,
    }
}

// ---------------------------------------------------------------------------
// Registry invariant
// ---------------------------------------------------------------------------

/// `o` is a live match under identifier `id`.
pub open spec fn slot_has_id(o: Option<GameVariant>, id: int) -> bool {
    match o {
        Some(g) => g.env_id() == id,
        Option::None => false,
    }
}

/// Some live match carries identifier `id`.
pub open spec fn id_used(gs: Seq<Option<GameVariant>>, id: int) -> bool {
    exists|i: int| 0 <= i < gs.len() && #[trigger] slot_has_id(gs[i], id)
}

/// A vacant slot, or a live well-formed match.
pub open spec fn slot_wf(o: Option<GameVariant>) -> bool {
    match o {
        Some(g) => g.env_wf(),
        Option::None => true,
    }
}

impl Registry {
    /// Session keys are unique in both tables and every live match is
    /// well formed.
    pub open spec fn wf(self) -> bool {
        keys_unique(self.players@) && keys_unique(self.session_game@) && (forall|i: int|
            0 <= i < self.games@.len() ==> slot_wf(#[trigger] self.games@[i]))
    }

    /// An empty directory.
    pub fn new() -> (r: Registry)
        ensures
            r.wf(),
            r.games@.len() == 0,
            r.players@.len() == 0,
            r.session_game@.len() == 0,
    {
        Registry { games: Vec::new(), players: Vec::new(), session_game: Vec::new() }
    }

    /// Bind a username and role to a session, replacing any previous
    /// record of the same session.
    pub fn register_player(&mut self, session: String, username: String, role: Role)
        requires
            old(self).wf(),
        ensures
            final(self).wf(),
            ({
                match find_key(final(self).players@, session@) {
                    Some(p) => p.username@ == username@ && p.role == role,
                    Option::None => false,
                }
            }),
            forall|k: Seq<char>|
                k != session@ ==> #[trigger] find_key(final(self).players@, k) == find_key(
                    old(self).players@,
                    k,
                ),
            final(self).games@ == old(self).games@,
            final(self).session_game@ == old(self).session_game@,
    {
        let len = self.players.len();
        let mut i: usize = 0;
        while i < len
            invariant
                i <= len,
                len == self.players@.len(),
                *self == *old(self),
                old(self).wf(),
                forall|j: int| 0 <= j < i ==> (#[trigger] self.players@[j]).0@ != session@,
            decreases len - i,
        {
            if self.players[i].0 == session {
                let entry = (session, Player { username, role });
                proof {
                    let ps = self.players@;
                    let ps2 = ps.update(i as int, entry);
                    assert forall|k: Seq<char>| k != session@ implies #[trigger] find_key(
                        ps2,
                        k,
                    ) == find_key(ps, k) by {
                        lemma_find_key_update(ps, i as int, entry, k);
                    }
                    lemma_find_key_at(ps2, session@, i as int);
                    assert forall|a: int, b: int| 0 <= a < b < ps2.len() implies (#[trigger] ps2[a]).0@
                        != (#[trigger] ps2[b]).0@ by {
                        assert(ps2[a].0@ == ps[a].0@);
                        assert(ps2[b].0@ == ps[b].0@);
                    }
                }
                self.players[i] = entry;
                return ;
            }
            i = i + 1;
        }
        let entry = (session, Player { username, role });
        proof {
            let ps = self.players@;
            lemma_find_key_absent(ps, session@);
            assert forall|k: Seq<char>| k != session@ implies #[trigger] find_key(
                ps.push(entry),
                k,
            ) == find_key(ps, k) by {
                lemma_find_key_push(ps, entry, k);
            }
            lemma_find_key_push_hit(ps, entry);
        }
        self.players.push(entry);
    }

    /// Forget a session entirely: its player record and its binding to a
    /// match.
    pub fn deregister_player(&mut self, session: &String)
        requires
            old(self).wf(),
        ensures
            final(self).wf(),
            find_key(final(self).players@, session@) is None,
            find_key(final(self).session_game@, session@) is None,
            forall|k: Seq<char>|
                k != session@ ==> #[trigger] find_key(final(self).players@, k) == find_key(
                    old(self).players@,
                    k,
                ),
            forall|k: Seq<char>|
                k != session@ ==> #[trigger] find_key(final(self).session_game@, k) == find_key(
                    old(self).session_game@,
                    k,
                ),
            final(self).games@ == old(self).games@,
    {
        let len = self.players.len();
        let mut i: usize = 0;
        let mut removed = false;
        while i < len && !removed
            invariant
                i <= len,
                old(self).wf(),
                self.games@ == old(self).games@,
                self.session_game@ == old(self).session_game@,
                removed ==> ({
                    &&& keys_unique(self.players@)
                    &&& find_key(self.players@, session@) is None
                    &&& forall|k: Seq<char>|
                        k != session@ ==> #[trigger] find_key(self.players@, k) == find_key(
                            old(self).players@,
                            k,
                        )
                }),
                !removed ==> ({
                    &&& self.players@ == old(self).players@
                    &&& len == self.players@.len()
                    &&& forall|j: int| 0 <= j < i ==> (#[trigger] self.players@[j]).0@ != session@
                }),
            decreases (if removed { 0int } else { 1int }), len - i,
        {
            if self.players[i].0 == *session {
                proof {
                    let ps = self.players@;
                    lemma_find_key_remove_gone(ps, i as int);
                    assert forall|k: Seq<char>| k != session@ implies #[trigger] find_key(
                        ps.remove(i as int),
                        k,
                    ) == find_key(ps, k) by {
                        lemma_find_key_remove(ps, i as int, k);
                    }
                }
                self.players.remove(i);
                removed = true;
            } else {
                i = i + 1;
            }
        }
        if !removed {
            proof {
                lemma_find_key_absent(self.players@, session@);
            }
        }
        let len2 = self.session_game.len();
        let mut j: usize = 0;
        let mut removed2 = false;
        while j < len2 && !removed2
            invariant
                j <= len2,
                keys_unique(self.session_game@),
                removed2 ==> ({
                    &&& find_key(self.session_game@, session@) is None
                    &&& forall|k: Seq<char>|
                        k != session@ ==> #[trigger] find_key(self.session_game@, k) == find_key(
                            old(self).session_game@,
                            k,
                        )
                }),
                !removed2 ==> ({
                    &&& self.session_game@ == old(self).session_game@
                    &&& len2 == self.session_game@.len()
                    &&& forall|jj: int|
                        0 <= jj < j ==> (#[trigger] self.session_game@[jj]).0@ != session@
                }),
                keys_unique(self.players@),
                find_key(self.players@, session@) is None,
                forall|k: Seq<char>|
                    k != session@ ==> #[trigger] find_key(self.players@, k) == find_key(
                        old(self).players@,
                        k,
                    ),
                self.games@ == old(self).games@,
            decreases (if removed2 { 0int } else { 1int }), len2 - j,
        {
            if self.session_game[j].0 == *session {
                proof {
                    let sg = self.session_game@;
                    lemma_find_key_remove_gone(sg, j as int);
                    assert forall|k: Seq<char>| k != session@ implies #[trigger] find_key(
                        sg.remove(j as int),
                        k,
                    ) == find_key(sg, k) by {
                        lemma_find_key_remove(sg, j as int, k);
                    }
                }
                self.session_game.remove(j);
                removed2 = true;
            } else {
                j = j + 1;
            }
        }
        if !removed2 {
            proof {
                lemma_find_key_absent(self.session_game@, session@);
            }
        }
    }
}

/// How many sessions are bound to match `id`.
pub open spec fn count_for(m: Seq<(String, usize)>, id: int) -> int
    decreases m.len(),
{
    if m.len() == 0 {
        0
    } else {
        (if m[0].1 == id {
            1int
        } else {
            0int
        }) + count_for(m.drop_first(), id)
    }
}

proof fn lemma_count_push(m: Seq<(String, usize)>, e: (String, usize), id: int)
    ensures
        count_for(m.push(e), id) == count_for(m, id) + (if e.1 == id {
            1int
        } else {
            0int
        }),
    decreases m.len(),
{
    if m.len() == 0 {
        assert(m.push(e)[0] == e);
        assert(m.push(e).drop_first() =~= Seq::<(String, usize)>::empty());
        assert(count_for(m.push(e).drop_first(), id) == 0);
    } else {
        assert(m.push(e).drop_first() =~= m.drop_first().push(e));
        lemma_count_push(m.drop_first(), e, id);
    }
}

/// The position of the first live match carrying `id`; meaningful only
/// when some live match does.
pub open spec fn live_index(gs: Seq<Option<GameVariant>>, id: int) -> int
    decreases gs.len(),
{
    if gs.len() == 0 {
        0
    } else if slot_has_id(gs[0], id) {
        0
    } else {
        1 + live_index(gs.drop_first(), id)
    }
}

proof fn lemma_live_index(gs: Seq<Option<GameVariant>>, id: int)
    requires
        id_used(gs, id),
    ensures
        0 <= live_index(gs, id) < gs.len(),
        slot_has_id(gs[live_index(gs, id)], id),
        forall|j: int| 0 <= j < live_index(gs, id) ==> !slot_has_id(#[trigger] gs[j], id),
    decreases gs.len(),
{
    if !slot_has_id(gs[0], id) {
        let w = choose|i: int| 0 <= i < gs.len() && #[trigger] slot_has_id(gs[i], id);
        assert(slot_has_id(gs.drop_first()[w - 1], id));
        lemma_live_index(gs.drop_first(), id);
        assert forall|j: int| 0 <= j < live_index(gs, id) implies !slot_has_id(
            #[trigger] gs[j],
            id,
        ) by {
            if j > 0 {
                assert(gs.drop_first()[j - 1] == gs[j]);
            }
        }
    }
}

impl Registry {
    /// Whether some live match already carries `id`.
    fn id_in_use(&self, id: usize) -> (b: bool)
        ensures
            b == id_used(self.games@, id as int),
    {
        let len = self.games.len();
        let mut i: usize = 0;
        while i < len
            invariant
                i <= len,
                len == self.games@.len(),
                forall|j: int| 0 <= j < i ==> !slot_has_id(#[trigger] self.games@[j], id as int),
            decreases len - i,
        {
            let hit = match &self.games[i] {
                Some(g) => g.id() == id,
                Option::None => false,
            };
            if hit {
                proof {
                    assert(slot_has_id(self.games@[i as int], id as int));
                }
                return true;
            }
            i = i + 1;
        }
        false
    }

    /// Create a match of the given variant and mode under the given
    /// identifier, unless a live match already carries it.
    pub fn create_match_with_id(&mut self, variant: Variant, mode: GameMode, id: usize) -> (ok:
        bool)
        requires
            old(self).wf(),
        ensures
            final(self).wf(),
            final(self).players@ == old(self).players@,
            final(self).session_game@ == old(self).session_game@,
            ok == !id_used(old(self).games@, id as int),
            !ok ==> final(self).games@ == old(self).games@,
            ok ==> final(self).games@.len() == old(self).games@.len() + 1 && (forall|j: int|
                0 <= j < old(self).games@.len() ==> final(self).games@[j] == old(self).games@[j])
                && (match final(self).games@[old(self).games@.len() as int] {
                Some(g) => g.attacker_view() == crate::hnefatafl::spec_new(variant, id as int)
                    && g.defender_view() == crate::hnefatafl::spec_new(variant, id as int)
                    && g.mode_spec() == mode && g.variant_of() == variant,
                Option::None => false,
            }),
    {
        if self.id_in_use(id) {
            return false;
        }
        let a = GameState::new(variant, id);
        let d = GameState::new(variant, id);
        let env = match variant {
            Variant::Tablut => GameVariant::Tablut(a, d, mode),
            Variant::Hnefatafl => GameVariant::Hnefatafl(a, d, mode),
            Variant::Brandubh => GameVariant::Brandubh(a, d, mode),
        };
        proof {
            assert(env.env_wf());
        }
        self.games.push(Some(env));
        proof {
            assert forall|i: int| 0 <= i < self.games@.len() implies slot_wf(
                #[trigger] self.games@[i],
            ) by {
                if i < self.games@.len() - 1 {
                    assert(self.games@[i] == old(self).games@[i]);
                }
            }
        }
        true
    }

    /// Create a match of the given variant and mode under a fresh random
    /// eight-digit identifier. The draw is retried on a collision; after
    /// too many collisions nothing is created.
    pub fn create_match(&mut self, variant: Variant, mode: GameMode) -> (r: Option<usize>)
        requires
            old(self).wf(),
        ensures
            final(self).wf(),
            final(self).players@ == old(self).players@,
            final(self).session_game@ == old(self).session_game@,
            // Success is owed wherever the draw cannot collide: only a
            // directory already holding an eight-digit identifier may
            // ever be answered with `None`.
            (forall|id: int| 10000000 <= id < 100000000 ==> !id_used(old(self).games@, id))
                ==> r is Some,
            (match r {
                Option::None => final(self).games@ == old(self).games@,
                Some(id) => 10000000 <= id < 100000000 && !id_used(old(self).games@, id as int)
                    && final(self).games@.len() == old(self).games@.len() + 1 && (forall|j: int|
                    0 <= j < old(self).games@.len() ==> final(self).games@[j] == old(
                        self,
                    ).games@[j]) && (match final(self).games@[old(self).games@.len() as int] {
                    Some(g) => g.attacker_view() == crate::hnefatafl::spec_new(variant, id as int)
                        && g.defender_view() == crate::hnefatafl::spec_new(variant, id as int)
                        && g.mode_spec() == mode && g.variant_of() == variant,
                    Option::None => false,
                }),
            }),
    {
        let mut tries: usize = 0;
        while tries < 16
            invariant
                old(self).wf(),
                self.wf(),
                self.games@ == old(self).games@,
                self.players@ == old(self).players@,
                self.session_game@ == old(self).session_game@,
                tries > 0 ==> (exists|id: int|
                    10000000 <= id < 100000000 && #[trigger] id_used(old(self).games@, id)),
            decreases 16 - tries,
        {
            let id = generate_random_id();
            if self.create_match_with_id(variant, mode, id) {
                return Some(id);
            }
            proof {
                assert(id_used(old(self).games@, id as int));
            }
            tries = tries + 1;
        }
        Option::None
    }

    /// Mark every live slot carrying `id` vacant; subscribers of the
    /// match end naturally.
    pub fn end_match(&mut self, id: usize)
        requires
            old(self).wf(),
        ensures
            final(self).wf(),
            final(self).players@ == old(self).players@,
            final(self).session_game@ == old(self).session_game@,
            final(self).games@.len() == old(self).games@.len(),
            forall|j: int|
                0 <= j < old(self).games@.len() && !slot_has_id(
                    #[trigger] old(self).games@[j],
                    id as int,
                ) ==> final(self).games@[j] == old(self).games@[j],
            forall|j: int|
                0 <= j < old(self).games@.len() && slot_has_id(
                    #[trigger] old(self).games@[j],
                    id as int,
                ) ==> final(self).games@[j] is None,
            !id_used(final(self).games@, id as int),
    {
        let len = self.games.len();
        let mut i: usize = 0;
        while i < len
            invariant
                i <= len,
                old(self).wf(),
                len == old(self).games@.len(),
                self.games@.len() == len,
                self.players@ == old(self).players@,
                self.session_game@ == old(self).session_game@,
                forall|j: int|
                    0 <= j < len && !(0 <= j < i && slot_has_id(
                        #[trigger] old(self).games@[j],
                        id as int,
                    )) ==> self.games@[j] == old(self).games@[j],
                forall|j: int|
                    0 <= j < i && slot_has_id(#[trigger] old(self).games@[j], id as int)
                        ==> self.games@[j] is None,
            decreases len - i,
        {
            let hit = match &self.games[i] {
                Some(g) => g.id() == id,
                Option::None => false,
            };
            if hit {
                self.games[i] = Option::None;
            }
            i = i + 1;
        }
        proof {
            assert forall|j: int|
                0 <= j < self.games@.len() implies !slot_has_id(
                #[trigger] self.games@[j],
                id as int,
            ) by {
                if slot_has_id(old(self).games@[j], id as int) {
                    assert(self.games@[j] is None);
                } else {
                    assert(self.games@[j] == old(self).games@[j]);
                }
            }
            assert forall|j: int| 0 <= j < self.games@.len() implies slot_wf(
                #[trigger] self.games@[j],
            ) by {
                if slot_has_id(old(self).games@[j], id as int) {
                    assert(self.games@[j] is None);
                } else {
                    assert(self.games@[j] == old(self).games@[j]);
                    assert(slot_wf(old(self).games@[j]));
                }
            }
        }
    }
    /// Open a match for a session: record the session as playing it and
    /// enforce the two-player limit of online matches.
    pub fn open_match(&mut self, session: &String, id: usize) -> (r: Result<(), GameError>)
        requires
            old(self).wf(),
        ensures
            final(self).wf(),
            final(self).games@ == old(self).games@,
            final(self).players@ == old(self).players@,
            !id_used(old(self).games@, id as int) ==> (r == Err::<(), GameError>(
                GameError::UnknownMatch,
            ) && final(self).session_game@ == old(self).session_game@),
            id_used(old(self).games@, id as int) ==> (match old(self).games@[live_index(
                old(self).games@,
                id as int,
            )] {
                Some(g) => (if find_key(old(self).session_game@, session@) == Some(id) {
                    r == Ok::<(), GameError>(()) && final(self).session_game@ == old(
                        self,
                    ).session_game@
                } else if g.mode_spec() == GameMode::Online && count_for(
                    old(self).session_game@,
                    id as int,
                ) >= 2 {
                    r == Err::<(), GameError>(GameError::MatchFull) && final(self).session_game@
                        == old(self).session_game@
                } else {
                    r == Ok::<(), GameError>(()) && find_key(final(self).session_game@, session@)
                        == Some(id) && (forall|k: Seq<char>|
                        k != session@ ==> #[trigger] find_key(final(self).session_game@, k)
                            == find_key(old(self).session_game@, k))
                }),
                Option::None => false,
            }),
    {
        let len = self.games.len();
        let mut i: usize = 0;
        let mut found = false;
        let mut mode = GameMode::Local;
        while i < len && !found
            invariant
                i <= len,
                old(self).wf(),
                *self == *old(self),
                len == self.games@.len(),
                found ==> ({
                    &&& i < len
                    &&& slot_has_id(self.games@[i as int], id as int)
                    &&& (match self.games@[i as int] {
                        Some(g) => mode == g.mode_spec(),
                        Option::None => false,
                    })
                }),
                forall|j: int| 0 <= j < i ==> !slot_has_id(#[trigger] self.games@[j], id as int),
            decreases (if found {
                0int
            } else {
                1int
            }), len - i,
        {
            match &self.games[i] {
                Some(g) => {
                    if g.id() == id {
                        mode = g.mode();
                        found = true;
                    }
                },
                Option::None => {},
            }
            if !found {
                i = i + 1;
            }
        }
        if !found {
            return Err(GameError::UnknownMatch);
        }
        proof {
            assert(id_used(self.games@, id as int));
            lemma_live_index(self.games@, id as int);
            assert(i as int == live_index(self.games@, id as int));
        }
        // Where does this session currently point?
        let sgl = self.session_game.len();
        let mut k: usize = 0;
        let mut existing: Option<usize> = Option::None;
        while k < sgl && existing.is_none()
            invariant
                k <= sgl,
                old(self).wf(),
                *self == *old(self),
                sgl == self.session_game@.len(),
                (match existing {
                    Some(e) => e < sgl && self.session_game@[e as int].0@ == session@ && (forall|
                        j: int,
                    |
                        0 <= j < e ==> (#[trigger] self.session_game@[j]).0@ != session@),
                    Option::None => forall|j: int|
                        0 <= j < k ==> (#[trigger] self.session_game@[j]).0@ != session@,
                }),
            decreases (if existing is Some {
                0int
            } else {
                1int
            }), sgl - k,
        {
            if self.session_game[k].0 == *session {
                existing = Some(k);
            } else {
                k = k + 1;
            }
        }
        match existing {
            Some(e) => {
                proof {
                    lemma_find_key_at(self.session_game@, session@, e as int);
                }
                if self.session_game[e].1 == id {
                    return Ok(());
                }
            },
            Option::None => {
                proof {
                    lemma_find_key_absent(self.session_game@, session@);
                }
            },
        }
        // The session is not yet bound to this match.
        if mode == GameMode::Online {
            let mut cnt: usize = 0;
            let mut t: usize = 0;
            while t < sgl
                invariant
                    t <= sgl,
                    *self == *old(self),
                    sgl == self.session_game@.len(),
                    cnt <= t,
                    cnt as int == count_for(self.session_game@.take(t as int), id as int),
                decreases sgl - t,
            {
                proof {
                    let sg = self.session_game@;
                    assert(sg.take(t as int + 1) =~= sg.take(t as int).push(sg[t as int]));
                    lemma_count_push(sg.take(t as int), sg[t as int], id as int);
                }
                if self.session_game[t].1 == id {
                    cnt = cnt + 1;
                }
                t = t + 1;
            }
            proof {
                assert(self.session_game@.take(sgl as int) =~= self.session_game@);
            }
            if cnt >= 2 {
                return Err(GameError::MatchFull);
            }
        }
        let entry = (session.clone(), id);
        match existing {
            Some(e) => {
                proof {
                    let sg = self.session_game@;
                    let sg2 = sg.update(e as int, entry);
                    assert forall|kk: Seq<char>| kk != session@ implies #[trigger] find_key(
                        sg2,
                        kk,
                    ) == find_key(sg, kk) by {
                        lemma_find_key_update(sg, e as int, entry, kk);
                    }
                    lemma_find_key_at(sg2, session@, e as int);
                    assert forall|a: int, b: int| 0 <= a < b < sg2.len() implies (
                    #[trigger] sg2[a]).0@ != (#[trigger] sg2[b]).0@ by {
                        assert(sg2[a].0@ == sg[a].0@);
                        assert(sg2[b].0@ == sg[b].0@);
                    }
                }
                self.session_game[e] = entry;
            },
            Option::None => {
                proof {
                    let sg = self.session_game@;
                    assert forall|kk: Seq<char>| kk != session@ implies #[trigger] find_key(
                        sg.push(entry),
                        kk,
                    ) == find_key(sg, kk) by {
                        lemma_find_key_push(sg, entry, kk);
                    }
                    lemma_find_key_push_hit(sg, entry);
                }
                self.session_game.push(entry);
            },
        }
        Ok(())
    }

    /// Route a click from a session into the match it names: resolve the
    /// session's role, find the match, and let the coordinator decide.
    pub fn click(&mut self, session: &String, match_id: usize, row: usize, col: usize) -> (r:
        Result<ClickOutcome, GameError>)
        requires
            old(self).wf(),
        ensures
            final(self).wf(),
            final(self).players@ == old(self).players@,
            final(self).session_game@ == old(self).session_game@,
            find_key(old(self).players@, session@) is None ==> r == Err::<ClickOutcome, GameError>(
                GameError::NoSession,
            ) && final(self).games@ == old(self).games@,
            find_key(old(self).players@, session@) is Some && !id_used(
                old(self).games@,
                match_id as int,
            ) ==> r == Err::<ClickOutcome, GameError>(GameError::UnknownMatch) && final(self).games@
                == old(self).games@,
            find_key(old(self).players@, session@) is Some && id_used(
                old(self).games@,
                match_id as int,
            ) ==> ({
                let i = live_index(old(self).games@, match_id as int);
                &&& final(self).games@.len() == old(self).games@.len()
                &&& (forall|j: int|
                    0 <= j < old(self).games@.len() && j != i ==> final(self).games@[j] == old(
                        self,
                    ).games@[j])
                &&& (match (old(self).games@[i], final(self).games@[i], find_key(
                    old(self).players@,
                    session@,
                ), r) {
                    (Some(g0), Some(g1), Some(p), Ok(outcome)) => click_transition(
                        g0,
                        g1,
                        p.role,
                        row as int,
                        col as int,
                        outcome,
                    ),
                    _ => false,
                })
            }),
    {
        // Resolve the session to its role.
        let plen = self.players.len();
        let mut pi: usize = 0;
        let mut role_found = false;
        let mut role = Role::Local;
        while pi < plen && !role_found
            invariant
                pi <= plen,
                old(self).wf(),
                *self == *old(self),
                plen == self.players@.len(),
                role_found ==> ({
                    &&& pi < plen
                    &&& self.players@[pi as int].0@ == session@
                    &&& role == self.players@[pi as int].1.role
                }),
                forall|j: int| 0 <= j < pi ==> (#[trigger] self.players@[j]).0@ != session@,
            decreases (if role_found {
                0int
            } else {
                1int
            }), plen - pi,
        {
            if self.players[pi].0 == *session {
                role = self.players[pi].1.role;
                role_found = true;
            } else {
                pi = pi + 1;
            }
        }
        if !role_found {
            proof {
                lemma_find_key_absent(self.players@, session@);
            }
            return Err(GameError::NoSession);
        }
        proof {
            lemma_find_key_at(self.players@, session@, pi as int);
        }
        // Find the live match.
        let glen = self.games.len();
        let mut gi: usize = 0;
        let mut found = false;
        while gi < glen && !found
            invariant
                gi <= glen,
                old(self).wf(),
                *self == *old(self),
                glen == self.games@.len(),
                found ==> gi < glen && slot_has_id(self.games@[gi as int], match_id as int),
                forall|j: int|
                    0 <= j < gi ==> !slot_has_id(#[trigger] self.games@[j], match_id as int),
            decreases (if found {
                0int
            } else {
                1int
            }), glen - gi,
        {
            let hit = match &self.games[gi] {
                Some(g) => g.id() == match_id,
                Option::None => false,
            };
            if hit {
                found = true;
            } else {
                gi = gi + 1;
            }
        }
        if !found {
            return Err(GameError::UnknownMatch);
        }
        proof {
            assert(id_used(self.games@, match_id as int));
            lemma_live_index(self.games@, match_id as int);
            assert(gi as int == live_index(self.games@, match_id as int));
        }
        // Take the envelope out, advance it, and put it back.
        let mut taken: Option<GameVariant> = Option::None;
        let slot = &mut self.games[gi];
        core::mem::swap(slot, &mut taken);
        match taken {
            Some(mut g) => {
                let outcome = g.apply_click(role, row, col);
                self.games[gi] = Some(g);
                proof {
                    assert forall|j: int| 0 <= j < self.games@.len() implies slot_wf(
                        #[trigger] self.games@[j],
                    ) by {
                        if j != gi as int {
                            assert(self.games@[j] == old(self).games@[j]);
                            assert(slot_wf(old(self).games@[j]));
                        }
                    }
                }
                Ok(outcome)
            },
            Option::None => {
                proof {
                    assert(false);
                }
                Err(GameError::UnknownMatch)
            },
        }
    }

    /// Assign the joining session the complement of the role the match's
    /// first player chose: the session's player record takes that role.
    /// Nothing changes when the match has no other player yet, or when
    /// either session lacks a player record.
    pub fn join_role(&mut self, session: &String, match_id: usize) -> (r: Option<Role>)
        requires
            old(self).wf(),
        ensures
            final(self).wf(),
            final(self).games@ == old(self).games@,
            final(self).session_game@ == old(self).session_game@,
            (match find_other(old(self).session_game@, match_id as int, session@) {
                Option::None => r is None && final(self).players@ == old(self).players@,
                Some(rival) => (match (
                    find_key(old(self).players@, rival),
                    find_key(old(self).players@, session@),
                ) {
                    (Some(rival_player), Some(own_player)) => ({
                        let own = complement_role(rival_player.role);
                        &&& r == Some(own)
                        &&& (match find_key(final(self).players@, session@) {
                            Some(p) => p.role == own && p.username@ == own_player.username@,
                            Option::None => false,
                        })
                        &&& (forall|k: Seq<char>|
                            k != session@ ==> #[trigger] find_key(final(self).players@, k)
                                == find_key(old(self).players@, k))
                    }),
                    _ => r is None && final(self).players@ == old(self).players@,
                }),
            }),
    {
        // The first other session bound to this match.
        let sgl = self.session_game.len();
        let mut k: usize = 0;
        let mut rival_at: Option<usize> = Option::None;
        while k < sgl && rival_at.is_none()
            invariant
                k <= sgl,
                old(self).wf(),
                *self == *old(self),
                sgl == self.session_game@.len(),
                (match rival_at {
                    Some(e) => e < sgl && self.session_game@[e as int].1 == match_id
                        && self.session_game@[e as int].0@ != session@ && (forall|j: int|
                        0 <= j < e ==> !((#[trigger] self.session_game@[j]).1 == match_id
                            && self.session_game@[j].0@ != session@)),
                    Option::None => forall|j: int|
                        0 <= j < k ==> !((#[trigger] self.session_game@[j]).1 == match_id
                            && self.session_game@[j].0@ != session@),
                }),
            decreases (if rival_at is Some {
                0int
            } else {
                1int
            }), sgl - k,
        {
            if self.session_game[k].1 == match_id && self.session_game[k].0 != *session {
                rival_at = Some(k);
            } else {
                k = k + 1;
            }
        }
        let rival_index = match rival_at {
            Some(e) => e,
            Option::None => {
                proof {
                    lemma_find_other_absent(self.session_game@, match_id as int, session@);
                }
                return Option::None;
            },
        };
        proof {
            lemma_find_other_at(self.session_game@, match_id as int, session@, rival_index as int);
        }
        let rival_key = self.session_game[rival_index].0.clone();
        // The rival's role.
        let plen = self.players.len();
        let mut pi: usize = 0;
        let mut rival_role: Option<Role> = Option::None;
        while pi < plen && rival_role.is_none()
            invariant
                pi <= plen,
                old(self).wf(),
                *self == *old(self),
                plen == self.players@.len(),
                rival_key@ == find_other(
                    self.session_game@,
                    match_id as int,
                    session@,
                )->Some_0,
                (match rival_role {
                    Some(ro) => pi < plen && self.players@[pi as int].0@ == rival_key@ && ro
                        == self.players@[pi as int].1.role && (forall|j: int|
                        0 <= j < pi ==> (#[trigger] self.players@[j]).0@ != rival_key@),
                    Option::None => forall|j: int|
                        0 <= j < pi ==> (#[trigger] self.players@[j]).0@ != rival_key@,
                }),
            decreases (if rival_role is Some {
                0int
            } else {
                1int
            }), plen - pi,
        {
            if self.players[pi].0 == rival_key {
                rival_role = Some(self.players[pi].1.role);
            } else {
                pi = pi + 1;
            }
        }
        let rival_role = match rival_role {
            Some(ro) => {
                proof {
                    lemma_find_key_at(self.players@, rival_key@, pi as int);
                }
                ro
            },
            Option::None => {
                proof {
                    lemma_find_key_absent(self.players@, rival_key@);
                }
                return Option::None;
            },
        };
        // The joiner's own record, for its username.
        let mut qi: usize = 0;
        let mut own_name: Option<String> = Option::None;
        while qi < plen && own_name.is_none()
            invariant
                qi <= plen,
                old(self).wf(),
                *self == *old(self),
                plen == self.players@.len(),
                (match own_name {
                    Some(ref u) => qi < plen && self.players@[qi as int].0@ == session@ && u@
                        == self.players@[qi as int].1.username@ && (forall|j: int|
                        0 <= j < qi ==> (#[trigger] self.players@[j]).0@ != session@),
                    Option::None => forall|j: int|
                        0 <= j < qi ==> (#[trigger] self.players@[j]).0@ != session@,
                }),
            decreases (if own_name is Some {
                0int
            } else {
                1int
            }), plen - qi,
        {
            if self.players[qi].0 == *session {
                own_name = Some(self.players[qi].1.username.clone());
            } else {
                qi = qi + 1;
            }
        }
        let username = match own_name {
            Some(u) => {
                proof {
                    lemma_find_key_at(self.players@, session@, qi as int);
                }
                u
            },
            Option::None => {
                proof {
                    lemma_find_key_absent(self.players@, session@);
                }
                return Option::None;
            },
        };
        let own = match rival_role {
            Role::Attacker => Role::Defender,
            _ => Role::Attacker,
        };
        self.register_player(session.clone(), username, own);
        Some(own)
    }
}

/// Generate a match identifier of eight decimal digits.
///
/// Relies on rand's `thread_rng` and `Rng::gen_range`: a uniform sample
/// within the half-open range handed to it; the range is not empty, so
/// the call does not panic. Nothing more is assumed of the value.
#[verifier::external_body]
pub fn generate_random_id() -> (id: usize)
    ensures
        10000000 <= id < 100000000,
{
    let mut rng = rand::thread_rng();
    let id: usize = rng.gen_range(10000000..100000000);
    id
}

} // verus!
