//! The Monte Carlo driver: many independent boarding trials, counted.
use vstd::prelude::*;
use crate::boarding::{board, seating_views, trial_outcome, valid_picks};
use crate::error::PlanesError;
use crate::planes::{is_seating, Planes};

verus! {

/// `b` is the outcome of boarding some seating that `generate_seating` may
/// return, for some valid sequence of random picks.
pub open spec fn possible_outcome(passengers: nat, seats: nat, cols: Seq<char>, b: bool) -> bool {
    exists|m: Map<u64, String>, picks: Seq<int>|
        is_seating(m, passengers, seats, cols) && valid_picks(picks, passengers)
            && #[trigger] trial_outcome(seating_views(m), passengers, picks) == b
}

/// How many entries of `s` are `true`.
pub open spec fn count_true(s: Seq<bool>) -> nat
    decreases s.len(),
{
    if s.len() == 0 {
        0
    } else {
        count_true(s.drop_last()) + if s.last() {
            1nat
        } else {
            0nat
        }
    }
}

/// The tally of a simulation: how many trials ran and in how many the last
/// passenger got their own seat. The estimated probability is
/// `successes / trials`.
#[derive(Debug, Clone, Copy, PartialEq, Eq, Structural)]
pub struct Estimate {
    pub successes: u64,
    pub trials: u64,
}

impl Estimate {
    /// A tally of no trials.
    pub fn empty() -> (r: Estimate)
        ensures
            r.successes == 0 && r.trials == 0,
    {
        Estimate { successes: 0, trials: 0 }
    }

    /// Adds the outcome of one trial.
    pub fn record(&mut self, success: bool)
        requires
            old(self).trials < u64::MAX,
            old(self).successes <= old(self).trials,
        ensures
            final(self).trials == old(self).trials + 1,
            final(self).successes == old(self).successes + if success {
                1int
            } else {
                0int
            },
    {
        self.trials = self.trials + 1;
        if success {
            self.successes = self.successes + 1;
        }
    }
}

impl Planes {
    /// One boarding trial on a fresh random seating: the rule's outcome for
    /// a possible seating and picks. It never fails, and a lone passenger
    /// always gets their own seat.
    pub fn run_trial(&self) -> (r: Result<bool, PlanesError>)
        requires
            self.valid(),
        ensures
            r matches Ok(b) && possible_outcome(
                self.passengers as nat,
                self.seats as nat,
                self.cols@,
                b,
            ),
            self.passengers == 1 ==> r == Ok::<bool, PlanesError>(true),
    {
        let seating = self.generate_seating();
        let r = board(&seating, self.passengers);
        proof {
            let picks = choose|picks: Seq<int>|
                valid_picks(picks, self.passengers as nat) && r == Ok::<bool, PlanesError>(
                    #[trigger] trial_outcome(seating_views(seating@), self.passengers as nat, picks),
                );
            assert(is_seating(seating@, self.passengers as nat, self.seats as nat, self.cols@));
            assert(trial_outcome(seating_views(seating@), self.passengers as nat, picks) == r->Ok_0);
        }
        r
    }

    /// Runs `iterations` independent trials and tallies them; zero
    /// iterations is refused, since no ratio can be formed.
    pub fn run_simulation(&self, iterations: u64) -> (r: Result<Estimate, PlanesError>)
        requires
            self.valid(),
        ensures
            r is Err <==> iterations == 0,
            r is Err ==> r == Err::<Estimate, PlanesError>(PlanesError::DivisionUndefined),
            r matches Ok(e) ==> e.trials == iterations && e.successes <= e.trials && (
            self.passengers == 1 ==> e.successes == iterations),
            r matches Ok(e) ==> exists|outcomes: Seq<bool>|
                #![trigger count_true(outcomes)]
                {
                    &&& outcomes.len() == iterations
                    &&& e.successes == count_true(outcomes)
                    &&& forall|t: int|
                        0 <= t < iterations ==> possible_outcome(
                            self.passengers as nat,
                            self.seats as nat,
                            self.cols@,
                            #[trigger] outcomes[t],
                        )
                },
    {
        if iterations == 0 {
            return Err(PlanesError::DivisionUndefined);
        }
        let mut tally = Estimate::empty();
        let ghost mut outcomes: Seq<bool> = Seq::empty();
        while tally.trials < iterations
            invariant
                self.valid(),
                outcomes.len() == tally.trials,
                tally.successes == count_true(outcomes),
                forall|t: int|
                    0 <= t < outcomes.len() ==> possible_outcome(
                        self.passengers as nat,
                        self.seats as nat,
                        self.cols@,
                        #[trigger] outcomes[t],
                    ),
                tally.trials <= iterations,
                tally.successes <= tally.trials,
                self.passengers == 1 ==> tally.successes == tally.trials,
            decreases iterations - tally.trials,
        {
            match self.run_trial() {
                Err(e) => return Err(e),
                Ok(success) => {
                    tally.record(success);
                    proof {
                        let before = outcomes;
                        outcomes = outcomes.push(success);
                        assert(outcomes.drop_last() =~= before);
                    }
                },
            }
        }
        Ok(tally)
    }
}

} // verus!
