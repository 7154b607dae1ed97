use vstd::prelude::*;

verus! {

/// Win/draw/loss tally of one role over a series of games.
#[derive(Clone, Copy)]
pub struct Stat {
    pub wins: usize,
    pub draws: usize,
    pub losts: usize,
}

impl Stat {
    /// All games counted by this tally.
    pub open spec fn total(&self) -> int {
        self.wins + self.draws + self.losts
    }

    fn new() -> (r: Stat)
        ensures
            r.wins == 0,
            r.draws == 0,
            r.losts == 0,
    {
        Stat { wins: 0, draws: 0, losts: 0 }
    }

    /// Count further games.
    pub fn record(&mut self, wins: usize, draws: usize, losts: usize)
        requires
            old(self).total() + wins + draws + losts <= usize::MAX,
        ensures
            final(self).wins == old(self).wins + wins,
            final(self).draws == old(self).draws + draws,
            final(self).losts == old(self).losts + losts,
    {
        self.wins = self.wins + wins;
        self.draws = self.draws + draws;
        self.losts = self.losts + losts;
    }

    pub fn sum(&self) -> (r: usize)
        requires
            self.total() <= usize::MAX,
        ensures
            r == self.total(),
    {
        self.wins + self.draws + self.losts
    }
}

/// The two tallies of one participant: one for each role it played.
#[derive(Clone, Copy)]
pub struct Results {
    pub playing_x: Stat,
    pub playing_o: Stat,
}

impl Results {
    /// All games counted for this participant.
    pub open spec fn total(&self) -> int {
        self.playing_x.total() + self.playing_o.total()
    }

    pub fn new() -> (r: Results)
        ensures
            r.total() == 0,
            r.playing_x.total() == 0,
            r.playing_o.total() == 0,
    {
        Results { playing_x: Stat::new(), playing_o: Stat::new() }
    }
}

} // verus!
