//! One boarding sequence under the puzzle's rule, over the pool of open seats.
use vstd::prelude::*;
use std::collections::HashMap;
use crate::error::PlanesError;
use crate::label::views;
use crate::random::random_index;

verus! {

broadcast use vstd::std_specs::hash::group_hash_axioms;

/// The index of the first occurrence of `x` in `s` (`s.len()` if none).
pub open spec fn first_index(s: Seq<Seq<char>>, x: Seq<char>) -> int
    decreases s.len(),
{
    if s.len() == 0 {
        0
    } else if s[0] == x {
        0
    } else {
        1 + first_index(s.drop_first(), x)
    }
}

/// `s` without the first occurrence of `x`.
pub open spec fn remove_first(s: Seq<Seq<char>>, x: Seq<char>) -> Seq<Seq<char>> {
    s.remove(first_index(s, x))
}

/// The labels of a seating, by passenger number.
pub open spec fn seating_views(m: Map<u64, String>) -> Map<u64, Seq<char>> {
    m.map_values(|s: String| s@)
}

/// Random pool positions as integers.
pub open spec fn pick_values(v: Seq<u64>) -> Seq<int> {
    v.map_values(|x: u64| x as int)
}

/// One pick per passenger, the `k`-th a position in the pool of the
/// `passengers - k` seats still open when passenger `k + 1` boards.
pub open spec fn valid_picks(picks: Seq<int>, passengers: nat) -> bool {
    &&& picks.len() == passengers
    &&& forall|k: int| 0 <= k < passengers ==> 0 <= #[trigger] picks[k] < passengers - k
}

/// Before anyone boards, every assigned seat is open.
pub open spec fn initial_pool(seating: Map<u64, Seq<char>>, passengers: nat) -> Seq<Seq<char>> {
    Seq::new(passengers, |j: int| seating[(j + 1) as u64])
}

/// The seat that passenger `p`, assigned `own`, takes from `pool`: position
/// `pick` of the pool when they are first or their own seat is taken, their
/// own seat otherwise.
pub open spec fn seat_of(pool: Seq<Seq<char>>, own: Seq<char>, p: nat, pick: int) -> Seq<char> {
    if p == 1 || !pool.contains(own) {
        pool[pick]
    } else {
        own
    }
}

/// The open seats once passengers `1..=k` have boarded.
pub open spec fn open_pool(
    seating: Map<u64, Seq<char>>,
    passengers: nat,
    picks: Seq<int>,
    k: nat,
) -> Seq<Seq<char>>
    decreases k,
{
    if k == 0 {
        initial_pool(seating, passengers)
    } else {
        let pool = open_pool(seating, passengers, picks, (k - 1) as nat);
        remove_first(pool, seat_of(pool, seating[k as u64], k, picks[k - 1]))
    }
}

/// The seat that passenger `p` (`p >= 1`) takes.
pub open spec fn seat_taken(
    seating: Map<u64, Seq<char>>,
    passengers: nat,
    picks: Seq<int>,
    p: nat,
) -> Seq<char> {
    seat_of(
        open_pool(seating, passengers, picks, (p - 1) as nat),
        seating[p as u64],
        p,
        picks[p - 1],
    )
}

/// Whether the last passenger ends up in their assigned seat.
pub open spec fn trial_outcome(
    seating: Map<u64, Seq<char>>,
    passengers: nat,
    picks: Seq<int>,
) -> bool {
    seat_taken(seating, passengers, picks, passengers) == seating[passengers as u64]
}

proof fn lemma_first_index(s: Seq<Seq<char>>, x: Seq<char>, i: int)
    requires
        0 <= i < s.len(),
        s[i] == x,
        forall|j: int| 0 <= j < i ==> s[j] != x,
    ensures
        first_index(s, x) == i,
    decreases i,
{
    if i > 0 {
        assert(s[0] != x);
        assert forall|j: int| 0 <= j < i - 1 implies s.drop_first()[j] != x by {
            assert(s.drop_first()[j] == s[j + 1]);
        }
        lemma_first_index(s.drop_first(), x, i - 1);
    }
}

/// A lone passenger always gets their own seat, whatever the pick.
pub proof fn lemma_lone_passenger(seating: Map<u64, Seq<char>>, picks: Seq<int>)
    requires
        valid_picks(picks, 1),
    ensures
        trial_outcome(seating, 1, picks),
{
    let pool = open_pool(seating, 1, picks, 0);
    assert(pool =~= seq![seating[1u64]]);
    assert(picks[0] == 0);
}

/// The index of the first label in `pool` equal to `seat`, if any.
pub fn position_of(pool: &Vec<String>, seat: &String) -> (r: Option<usize>)
    ensures
        r is None <==> !views(pool@).contains(seat@),
        r matches Some(i) ==> i < pool.len() && pool@[i as int]@ == seat@ && forall|j: int|
            0 <= j < i ==> #[trigger] pool@[j]@ != seat@,
{
    let mut i: usize = 0;
    while i < pool.len()
        invariant
            i <= pool.len(),
            forall|j: int| 0 <= j < i ==> #[trigger] pool@[j]@ != seat@,
        decreases pool.len() - i,
    {
        if pool[i] == *seat {
            assert(views(pool@)[i as int] == seat@);
            return Some(i);
        }
        i = i + 1;
    }
    proof {
        if views(pool@).contains(seat@) {
            let j = choose|j: int| 0 <= j < views(pool@).len() && views(pool@)[j] == seat@;
            assert(pool@[j]@ == seat@);
        }
    }
    None
}

/// Whether passenger `p`, assigned `own`, must take a random open seat: the
/// first passenger always does, the others when their own seat is taken.
pub fn must_choose(p: u64, pool: &Vec<String>, own: &String) -> (r: bool)
    ensures
        r == (p == 1 || !views(pool@).contains(own@)),
{
    p == 1 || position_of(pool, own).is_none()
}

/// Removes the first occurrence of `seat` from the open pool; fails, leaving
/// the pool as it was, when `seat` is not open.
pub fn take_seat(pool: &mut Vec<String>, seat: &String) -> (r: Result<(), PlanesError>)
    ensures
        r is Ok <==> views(old(pool)@).contains(seat@),
        r is Err ==> r == Err::<(), PlanesError>(PlanesError::InvariantViolation) && final(pool)@
            == old(pool)@,
        r is Ok ==> final(pool)@.len() == old(pool)@.len() - 1,
        r is Ok ==> views(final(pool)@) == remove_first(views(old(pool)@), seat@),
        r is Ok ==> views(final(pool)@).to_multiset() == views(old(pool)@).to_multiset().remove(
            seat@,
        ),
{
    match position_of(pool, seat) {
        None => Err(PlanesError::InvariantViolation),
        Some(i) => {
            let ghost before = pool@;
            pool.remove(i);
            proof {
                assert forall|j: int| 0 <= j < i implies views(before)[j] != seat@ by {
                    assert(before[j]@ != seat@);
                }
                lemma_first_index(views(before), seat@, i as int);
                assert(views(pool@) =~= views(before).remove(i as int));
                vstd::seq_lib::to_multiset_remove(views(before), i as int);
            }
            Ok(())
        },
    }
}

/// Boards passengers `1..=passengers` in order under the puzzle's rule,
/// where the `k`-th random choice takes position `picks[k]` of the open pool,
/// and reports whether the last passenger took their assigned seat.
pub fn board_with_picks(seating: &HashMap<u64, String>, passengers: u64, picks: &Vec<u64>) -> (r:
    Result<bool, PlanesError>)
    requires
        passengers >= 1,
        forall|k: u64| #[trigger] seating@.contains_key(k) <==> 1 <= k <= passengers,
        valid_picks(pick_values(picks@), passengers as nat),
    ensures
        r == Ok::<bool, PlanesError>(
            trial_outcome(seating_views(seating@), passengers as nat, pick_values(picks@)),
        ),
{
    let ghost sv = seating_views(seating@);
    let ghost pk = pick_values(picks@);
    let ghost n = passengers as nat;
    let mut pool: Vec<String> = Vec::new();
    let mut i: u64 = 0;
    while i < passengers
        invariant
            i <= passengers,
            sv == seating_views(seating@),
            forall|k: u64| #[trigger] seating@.contains_key(k) <==> 1 <= k <= passengers,
            pool.len() == i,
            forall|j: int| 0 <= j < i ==> #[trigger] pool@[j]@ == seating@[(j + 1) as u64]@,
        decreases passengers - i,
    {
        match seating.get(&(i + 1)) {
            None => return Err(PlanesError::InvariantViolation),
            Some(s) => pool.push(s.clone()),
        }
        i = i + 1;
    }
    assert(views(pool@) =~= initial_pool(sv, n));
    assert(pk.len() == picks@.len());
    let mut seat = String::new();
    let mut i: u64 = 0;
    while i < passengers
        invariant
            i <= passengers,
            n == passengers,
            sv == seating_views(seating@),
            pk == pick_values(picks@),
            valid_picks(pk, n),
            picks@.len() == passengers,
            forall|k: u64| #[trigger] seating@.contains_key(k) <==> 1 <= k <= passengers,
            pool.len() == passengers - i,
            views(pool@) == open_pool(sv, n, pk, i as nat),
            i >= 1 ==> seat@ == seat_taken(sv, n, pk, i as nat),
        decreases passengers - i,
    {
        let p = i + 1;
        let own = match seating.get(&p) {
            None => return Err(PlanesError::InvariantViolation),
            Some(s) => s,
        };
        let ghost vp = views(pool@);
        assert(sv[p] == own@);
        if must_choose(p, &pool, own) {
            assert(i < picks.len());
            let idx = i as usize;
            let k = picks[idx];
            assert(pk[idx as int] == picks@[idx as int] as int);
            assert(pk[i as int] == k as int);
            seat = pool[k as usize].clone();
            assert(vp[k as int] == seat@);
        } else {
            seat = own.clone();
        }
        assert(seat@ == seat_of(vp, sv[p], p as nat, pk[i as int]));
        match take_seat(&mut pool, &seat) {
            Err(e) => return Err(e),
            Ok(()) => {},
        }
        i = i + 1;
    }
    match seating.get(&passengers) {
        None => Err(PlanesError::InvariantViolation),
        Some(last) => {
            assert(sv[passengers] == last@);
            Ok(seat == *last)
        },
    }
}

/// Boards passengers `1..=passengers` with fresh random picks: the result is
/// the rule's outcome for some valid sequence of picks, so the trial never
/// fails, and a lone passenger always gets their own seat.
pub fn board(seating: &HashMap<u64, String>, passengers: u64) -> (r: Result<bool, PlanesError>)
    requires
        passengers >= 1,
        forall|k: u64| #[trigger] seating@.contains_key(k) <==> 1 <= k <= passengers,
    ensures
        exists|picks: Seq<int>|
            valid_picks(picks, passengers as nat) && r == Ok::<bool, PlanesError>(
                #[trigger] trial_outcome(seating_views(seating@), passengers as nat, picks),
            ),
        passengers == 1 ==> r == Ok::<bool, PlanesError>(true),
{
    let mut picks: Vec<u64> = Vec::new();
    let mut k: u64 = 0;
    while k < passengers
        invariant
            k <= passengers,
            picks.len() == k,
            forall|j: int| 0 <= j < k ==> #[trigger] picks@[j] < passengers - j,
        decreases passengers - k,
    {
        let pick = random_index(passengers - k);
        picks.push(pick);
        k = k + 1;
    }
    assert(valid_picks(pick_values(picks@), passengers as nat));
    let r = board_with_picks(seating, passengers, &picks);
    proof {
        if passengers == 1 {
            lemma_lone_passenger(seating_views(seating@), pick_values(picks@));
        }
    }
    r
}

} // verus!
