//! The aircraft's configuration and the random assignment of seats.
use vstd::prelude::*;
use vstd::std_specs::iter::IteratorSpec;
use std::collections::HashMap;
use crate::error::PlanesError;
use crate::label::{build_seat_universe, lemma_seat_label_injective, seat_label, seat_universe, views};
use crate::random::{is_permutation, shuffle_labels};

verus! {

broadcast use vstd::std_specs::hash::group_hash_axioms;

/// An aircraft: how many passengers board, how many seats it has, and the
/// column labels of one row.
pub struct Planes {
    pub passengers: u64,
    pub seats: u64,
    pub cols: Vec<char>,
}

impl Planes {
    /// At least one passenger, no more passengers than seats, and at least
    /// one column.
    pub open spec fn valid(&self) -> bool {
        &&& 1 <= self.passengers <= self.seats
        &&& self.cols.len() > 0
    }

    /// Builds a configuration; fails when there is no passenger, more
    /// passengers than seats, or no column label.
    pub fn new(passengers: u64, seats: u64, cols: &str) -> (r: Result<Planes, PlanesError>)
        ensures
            r is Ok <==> (1 <= passengers <= seats && cols@.len() > 0),
            r is Err ==> r == Err::<Planes, PlanesError>(PlanesError::ConfigurationError),
            r matches Ok(p) ==> p.valid() && p.passengers == passengers && p.seats == seats
                && p.cols@ == cols@,
    {
        let cols = chars_of(cols);
        if passengers == 0 || passengers > seats || cols.len() == 0 {
            Err(PlanesError::ConfigurationError)
        } else {
            Ok(Planes { passengers, seats, cols })
        }
    }

    /// A fresh random assignment of distinct seats to passengers
    /// `1..=passengers`.
    pub fn generate_seating(&self) -> (r: HashMap<u64, String>)
        requires
            self.valid(),
        ensures
            is_seating(r@, self.passengers as nat, self.seats as nat, self.cols@),
            exists|shuffled: Seq<Seq<char>>|
                #[trigger] is_permutation(seat_universe(self.seats as nat, self.cols@), shuffled)
                    && forall|k: u64|
                    1 <= k <= self.passengers ==> #[trigger] r@[k]@ == shuffled[k - 1],
    {
        let mut labels = build_seat_universe(self.seats, &self.cols);
        let ghost universe = labels@;
        shuffle_labels(&mut labels);
        assert(views(universe).len() == universe.len());
        assert(is_permutation(universe, labels@));
        let ghost perm = choose|perm: Seq<int>|
            {
                &&& #[trigger] perm.len() == universe.len()
                &&& forall|i: int|
                    0 <= i < perm.len() ==> 0 <= #[trigger] perm[i] < universe.len() && labels@[i]
                        == universe[perm[i]]
                &&& forall|i: int, j: int|
                    0 <= i < j < perm.len() ==> #[trigger] perm[i] != #[trigger] perm[j]
            };
        let seating = assign_seats(&labels, self.passengers);
        proof {
            let idx = perm.take(self.passengers as int);
            assert forall|q: int| 0 <= q < self.passengers implies 0 <= #[trigger] idx[q]
                < self.seats && seating@[(q + 1) as u64]@ == seat_label(idx[q] as nat, self.cols@) by {
                let k = (q + 1) as u64;
                assert(seating@[k]@ == labels@[k - 1]@);
                assert(views(universe)[perm[q]] == universe[perm[q]]@);
            }
            assert(forall|q: int, r: int|
                0 <= q < r < self.passengers ==> #[trigger] idx[q] != #[trigger] idx[r]);
            assert(idx.len() == self.passengers);
            let shuffled = views(labels@);
            assert forall|i: int| 0 <= i < perm.len() implies 0 <= #[trigger] perm[i]
                < views(universe).len() && shuffled[i] == views(universe)[perm[i]] by {
                assert(labels@[i] == universe[perm[i]]);
            }
            assert(is_permutation(views(universe), shuffled));
            assert(forall|k: u64|
                1 <= k <= self.passengers ==> #[trigger] seating@[k]@ == shuffled[k - 1]);
        }
        seating
    }
}

/// Gives passenger `q` (for `q` in `1..=passengers`) the label at position
/// `q - 1` of `labels`.
pub fn assign_seats(labels: &Vec<String>, passengers: u64) -> (r: HashMap<u64, String>)
    requires
        passengers <= labels.len(),
    ensures
        r@.len() == passengers,
        forall|k: u64| #[trigger] r@.contains_key(k) <==> 1 <= k <= passengers,
        forall|k: u64| 1 <= k <= passengers ==> #[trigger] r@[k] == labels@[k - 1],
{
    let mut seating: HashMap<u64, String> = HashMap::new();
    let mut i: u64 = 0;
    while i < passengers
        invariant
            i <= passengers,
            passengers <= labels.len(),
            forall|k: u64| #[trigger] seating@.contains_key(k) <==> 1 <= k <= i,
            forall|k: u64| 1 <= k <= i ==> #[trigger] seating@[k] == labels@[k - 1],
            seating@.len() == i,
        decreases passengers - i,
    {
        let label = labels[i as usize].clone();
        assert(!seating@.contains_key((i + 1) as u64));
        seating.insert(i + 1, label);
        i = i + 1;
    }
    seating
}

/// `m` assigns passengers `1..=passengers` the labels of distinct seats among
/// the first `seats`.
pub open spec fn is_seating(m: Map<u64, String>, passengers: nat, seats: nat, cols: Seq<char>) -> bool {
    &&& m.len() == passengers
    &&& forall|k: u64| #[trigger] m.contains_key(k) <==> 1 <= k <= passengers
    &&& exists|idx: Seq<int>|
        #![trigger idx.len()]
        {
            &&& idx.len() == passengers
            &&& forall|q: int|
                0 <= q < passengers ==> 0 <= #[trigger] idx[q] < seats && m[(q + 1) as u64]@
                    == seat_label(idx[q] as nat, cols)
            &&& forall|q: int, r: int|
                0 <= q < r < passengers ==> #[trigger] idx[q] != #[trigger] idx[r]
        }
}

/// Any seating that `generate_seating` may return has one entry per
/// passenger, each a label of the seat universe; with distinct column labels,
/// no two passengers share a label.
pub proof fn lemma_seating_distinct(
    m: Map<u64, String>,
    passengers: nat,
    seats: nat,
    cols: Seq<char>,
)
    requires
        is_seating(m, passengers, seats, cols),
        cols.len() > 0,
    ensures
        m.len() == passengers,
        forall|k: u64| #[trigger]
            m.contains_key(k) ==> seat_universe(seats, cols).contains(m[k]@),
        cols.no_duplicates() ==> forall|k1: u64, k2: u64|
            m.contains_key(k1) && m.contains_key(k2) && k1 != k2 ==> #[trigger] m[k1]@
                != #[trigger] m[k2]@,
{
    let idx = choose|idx: Seq<int>|
        {
            &&& #[trigger] idx.len() == passengers
            &&& forall|q: int|
                0 <= q < passengers ==> 0 <= #[trigger] idx[q] < seats && m[(q + 1) as u64]@
                    == seat_label(idx[q] as nat, cols)
            &&& forall|q: int, r: int|
                0 <= q < r < passengers ==> #[trigger] idx[q] != #[trigger] idx[r]
        };
    assert forall|k: u64| #[trigger]
        m.contains_key(k) implies seat_universe(seats, cols).contains(m[k]@) by {
        let q = k - 1;
        assert(m[(q + 1) as u64]@ == seat_label(idx[q] as nat, cols));
        assert(seat_universe(seats, cols)[idx[q]] == m[k]@);
    }
    if cols.no_duplicates() {
        assert forall|k1: u64, k2: u64|
            m.contains_key(k1) && m.contains_key(k2) && k1 != k2 implies #[trigger] m[k1]@
                != #[trigger] m[k2]@ by {
            let q1 = k1 - 1;
            let q2 = k2 - 1;
            assert(m[(q1 + 1) as u64]@ == seat_label(idx[q1] as nat, cols));
            assert(m[(q2 + 1) as u64]@ == seat_label(idx[q2] as nat, cols));
            if m[k1]@ == m[k2]@ {
                lemma_seat_label_injective(idx[q1] as nat, idx[q2] as nat, cols);
                if q1 < q2 {
                    assert(idx[q1] != idx[q2]);
                } else {
                    assert(idx[q2] != idx[q1]);
                }
            }
        }
    }
}

/// The characters of `s`, in order.
fn chars_of(s: &str) -> (r: Vec<char>)
    ensures
        r@ == s@,
{
    broadcast use vstd::string::axiom_spec_iter, vstd::string::next_postcondition;

    let mut it = s.chars();
    let mut out: Vec<char> = Vec::new();
    loop
        invariant
            it.obeys_prophetic_iter_laws(),
            it.decrease() is Some,
            out@ + it.remaining() == s@,
        decreases it.decrease()->0,
    {
        match it.next() {
            None => {
                assert(out@ =~= s@);
                return out;
            },
            Some(c) => {
                out.push(c);
            },
        }
    }
}

} // verus!
