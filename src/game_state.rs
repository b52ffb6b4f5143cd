use vstd::prelude::*;
use crate::pieces::Side;
use crate::play::Play;

verus! {

/// A short record of the relevant information about a play, enough to tell whether it
/// repeats an earlier play.
#[derive(Debug, Copy, Clone, PartialEq, Eq, Structural)]
pub struct ShortPlayRecord {
    pub side: Side,
    pub play: Play,
    pub captures: bool,
}

impl ShortPlayRecord {
    /// The short record of an entry of a game's history: whether it captured is whether its
    /// list of captures is non-empty.
    pub fn from_record(record: &crate::game::PlayRecord) -> (r: ShortPlayRecord)
        ensures
            r.side == record.side,
            r.play == record.play,
            r.captures == (record.outcome.captures@.len() > 0),
    {
        ShortPlayRecord {
            side: record.side,
            play: record.play,
            captures: record.outcome.captures.len() > 0,
        }
    }
}

/// The bookkeeping of a `RepetitionTracker`: per side, the repetition counter and whether
/// the side is half-way through a repeated pair; and the last four plays, oldest first.
pub struct RepetitionState {
    pub attacker_reps: nat,
    pub defender_reps: nat,
    pub attacker_mid_pair: bool,
    pub defender_mid_pair: bool,
    pub recent: Seq<Option<ShortPlayRecord>>,
}

impl RepetitionState {
    pub open spec fn reps(self, side: Side) -> nat {
        match side {
            Side::Attacker => self.attacker_reps,
            Side::Defender => self.defender_reps,
        }
    }

    pub open spec fn mid_pair(self, side: Side) -> bool {
        match side {
            Side::Attacker => self.attacker_mid_pair,
            Side::Defender => self.defender_mid_pair,
        }
    }

    /// The same state with the given side's counter and mid-pair flag replaced.
    pub open spec fn with_side(self, side: Side, reps: nat, mid: bool) -> RepetitionState {
        match side {
            Side::Attacker => RepetitionState {
                attacker_reps: reps,
                attacker_mid_pair: mid,
                ..self
            },
            Side::Defender => RepetitionState {
                defender_reps: reps,
                defender_mid_pair: mid,
                ..self
            },
        }
    }
}

/// The state before any play: no repetitions, no plays recorded.
pub open spec fn initial_state() -> RepetitionState {
    RepetitionState {
        attacker_reps: 0,
        defender_reps: 0,
        attacker_mid_pair: false,
        defender_mid_pair: false,
        recent: seq![None, None, None, None],
    }
}

/// Whether a play counts against the repetition rule: it captures nothing and is the play
/// recorded four plays ago.
pub open spec fn repeats(st: RepetitionState, rec: ShortPlayRecord) -> bool {
    !rec.captures && st.recent[0] == Some(rec)
}

/// What tracking one play does. A repeated play bumps its side's counter on the outbound leg
/// of a pair and leaves it on the return leg; any other play resets its side's counter. The
/// play then enters the record of recent plays, pushing out the oldest.
pub open spec fn step(st: RepetitionState, rec: ShortPlayRecord) -> RepetitionState {
    let side = rec.side;
    let after = if repeats(st, rec) {
        if !st.mid_pair(side) {
            st.with_side(side, st.reps(side) + 1, true)
        } else {
            st.with_side(side, st.reps(side), false)
        }
    } else {
        st.with_side(side, 0, false)
    };
    RepetitionState { recent: st.recent.drop_first().push(Some(rec)), ..after }
}

/// The state after tracking the given plays in order, starting from `st`.
pub open spec fn run(st: RepetitionState, recs: Seq<ShortPlayRecord>) -> RepetitionState
    decreases recs.len(),
{
    if recs.len() == 0 {
        st
    } else {
        step(run(st, recs.drop_last()), recs.last())
    }
}

/// Keeps track of the number of consecutive times each side has repeated its last move.
///
/// A move is considered to be a repetition if (1) it does not capture any pieces; (2) it is
/// the same as the fourth last move in the game record; and (3) it is not merely a reversal
/// of a previous repeating move. For example, if a player moves `a1-b1`, `b1-a1`, `a1-b1`,
/// `b1-a1`, the second `a1-b1` counts as a repetition but the second `b1-a1` does not (nor
/// does it reset the counter).
#[derive(Debug, Copy, Clone)]
pub struct RepetitionTracker {
    attacker_reps: usize,
    defender_reps: usize,
    attacker_mid_pair: bool,
    defender_mid_pair: bool,
    recent_plays: [Option<ShortPlayRecord>; 4],
}

impl View for RepetitionTracker {
    type V = RepetitionState;

    closed spec fn view(&self) -> RepetitionState {
        RepetitionState {
            attacker_reps: self.attacker_reps as nat,
            defender_reps: self.defender_reps as nat,
            attacker_mid_pair: self.attacker_mid_pair,
            defender_mid_pair: self.defender_mid_pair,
            recent: self.recent_plays@,
        }
    }
}

impl Default for RepetitionTracker {
    fn default() -> (r: RepetitionTracker)
        ensures
            r@ == initial_state(),
    {
        RepetitionTracker::new()
    }
}

impl RepetitionTracker {
    /// A tracker that has seen no play.
    pub fn new() -> (r: RepetitionTracker)
        ensures
            r@ == initial_state(),
    {
        let r = RepetitionTracker {
            attacker_reps: 0,
            defender_reps: 0,
            attacker_mid_pair: false,
            defender_mid_pair: false,
            recent_plays: [None, None, None, None],
        };
        assert(r@.recent =~= initial_state().recent);
        r
    }

    fn is_mid_pair(&self, side: Side) -> (r: bool)
        ensures
            r == self@.mid_pair(side),
    {
        match side {
            Side::Attacker => self.attacker_mid_pair,
            Side::Defender => self.defender_mid_pair,
        }
    }

    fn toggle_mid_pair(&mut self, side: Side)
        ensures
            final(self)@ == old(self)@.with_side(
                side,
                old(self)@.reps(side),
                !old(self)@.mid_pair(side),
            ),
    {
        match side {
            Side::Attacker => self.attacker_mid_pair = !self.attacker_mid_pair,
            Side::Defender => self.defender_mid_pair = !self.defender_mid_pair,
        }
    }

    /// Check whether the play repeats the play four plays ago and, if so, flip the side's
    /// mid-pair flag. Returns whether to increment the repetition counter and whether to
    /// reset it.
    fn check_repetition(&mut self, record: ShortPlayRecord) -> (r: (bool, bool))
        ensures
            r.1 == !repeats(old(self)@, record),
            r.0 == (repeats(old(self)@, record) && !old(self)@.mid_pair(record.side)),
            repeats(old(self)@, record) ==> final(self)@ == old(self)@.with_side(
                record.side,
                old(self)@.reps(record.side),
                !old(self)@.mid_pair(record.side),
            ),
            !repeats(old(self)@, record) ==> final(self)@ == old(self)@,
    {
        let same = match self.recent_plays[0] {
            Some(first) => first == record,
            None => false,
        };
        if !record.captures && same {
            let is_rep = !self.is_mid_pair(record.side);
            self.toggle_mid_pair(record.side);
            (is_rep, false)
        } else {
            (false, true)
        }
    }

    /// Return the number of consecutive repetitions recorded for the given side.
    pub fn get_repetitions(&self, side: Side) -> (r: usize)
        ensures
            r == self@.reps(side),
    {
        match side {
            Side::Attacker => self.attacker_reps,
            Side::Defender => self.defender_reps,
        }
    }

    /// Track the given play: add to the given side's repetition count if it is a repetition,
    /// reset that count otherwise.
    pub fn track_play(&mut self, side: Side, play: Play, captures: bool)
        requires
            old(self)@.reps(side) < usize::MAX,
        ensures
            final(self)@ == step(old(self)@, ShortPlayRecord { side, play, captures }),
    {
        let record = ShortPlayRecord { side, play, captures };
        let (incr, reset) = self.check_repetition(record);
        if incr {
            match record.side {
                Side::Attacker => self.attacker_reps = self.attacker_reps + 1,
                Side::Defender => self.defender_reps = self.defender_reps + 1,
            }
        } else if reset {
            match record.side {
                Side::Attacker => {
                    self.attacker_reps = 0;
                    self.attacker_mid_pair = false;
                },
                Side::Defender => {
                    self.defender_reps = 0;
                    self.defender_mid_pair = false;
                },
            }
        }
        let ghost before = self.recent_plays@;
        self.recent_plays = [
            self.recent_plays[1],
            self.recent_plays[2],
            self.recent_plays[3],
            Some(record),
        ];
        assert(self.recent_plays@ =~= before.drop_first().push(Some(record)));
    }
}

/// `k` plays of the given sequence one after the other.
pub open spec fn cycles(recs: Seq<ShortPlayRecord>, k: nat) -> Seq<ShortPlayRecord>
    decreases k,
{
    if k == 0 {
        Seq::<ShortPlayRecord>::empty()
    } else {
        cycles(recs, (k - 1) as nat) + recs
    }
}

proof fn lemma_run_append(st: RepetitionState, a: Seq<ShortPlayRecord>, b: Seq<ShortPlayRecord>)
    ensures
        run(st, a + b) == run(run(st, a), b),
    decreases b.len(),
{
    if b.len() == 0 {
        assert(a + b =~= a);
    } else {
        assert((a + b).drop_last() =~= a + b.drop_last());
        assert((a + b).last() == b.last());
        lemma_run_append(st, a, b.drop_last());
    }
}

proof fn lemma_run_four(st: RepetitionState, recs: Seq<ShortPlayRecord>)
    requires
        recs.len() == 4,
    ensures
        run(st, recs) == step(step(step(step(st, recs[0]), recs[1]), recs[2]), recs[3]),
{
    let r3 = recs.drop_last();
    let r2 = r3.drop_last();
    let r1 = r2.drop_last();
    let r0 = r1.drop_last();
    assert(r0.len() == 0);
    assert(run(st, r0) == st);
    assert(r1.last() == recs[0]);
    assert(r2.last() == recs[1]);
    assert(r3.last() == recs[2]);
    assert(recs.last() == recs[3]);
    assert(run(st, r1) == step(st, recs[0]));
    assert(run(st, r2) == step(run(st, r1), recs[1]));
    assert(run(st, r3) == step(run(st, r2), recs[2]));
}

/// Any play that captures, or that is not the play made four plays earlier, brings its
/// side's repetition counter back to zero.
pub proof fn lemma_reset_on_new_play(st: RepetitionState, rec: ShortPlayRecord)
    requires
        rec.captures || st.recent[0] != Some(rec),
    ensures
        step(st, rec).reps(rec.side) == 0,
        !step(st, rec).mid_pair(rec.side),
        step(st, rec).reps(rec.side.other_spec()) == st.reps(rec.side.other_spec()),
{
}

/// Replaying a cycle of four non-capturing plays, attacker and defender in turn, `k` times
/// from a fresh tracker leaves each side with `k - 1` repetitions.
pub proof fn lemma_repeated_cycles(recs: Seq<ShortPlayRecord>, k: nat)
    requires
        recs.len() == 4,
        recs[0].side == Side::Attacker,
        recs[1].side == Side::Defender,
        recs[2].side == Side::Attacker,
        recs[3].side == Side::Defender,
        forall|i: int| 0 <= i < 4 ==> !(#[trigger] recs[i]).captures,
        k >= 1,
    ensures
        run(initial_state(), cycles(recs, k)).attacker_reps == k - 1,
        run(initial_state(), cycles(recs, k)).defender_reps == k - 1,
        !run(initial_state(), cycles(recs, k)).attacker_mid_pair,
        !run(initial_state(), cycles(recs, k)).defender_mid_pair,
        run(initial_state(), cycles(recs, k)).recent == seq![
            Some(recs[0]),
            Some(recs[1]),
            Some(recs[2]),
            Some(recs[3]),
        ],
    decreases k,
{
    let prev = cycles(recs, (k - 1) as nat);
    lemma_run_append(initial_state(), prev, recs);
    let st = run(initial_state(), prev);
    lemma_run_four(st, recs);
    assert(!recs[0].captures && !recs[1].captures && !recs[2].captures && !recs[3].captures);
    if k == 1 {
        assert(prev =~= Seq::<ShortPlayRecord>::empty());
        assert(st == initial_state());
    } else {
        lemma_repeated_cycles(recs, (k - 1) as nat);
    }
    let s1 = step(st, recs[0]);
    let s2 = step(s1, recs[1]);
    let s3 = step(s2, recs[2]);
    let s4 = step(s3, recs[3]);
    assert(s4.recent =~= seq![Some(recs[0]), Some(recs[1]), Some(recs[2]), Some(recs[3])]);
}

} // verus!
