//! The play queue: a snapshot of the view taken when playback starts, the
//! place in it, and, under shuffle, the places already heard.

use vstd::prelude::*;

use crate::app::Repeat;

verus! {

/// What is playing next, as rows of the library.
/// The shuffle's first random state, from the clock's nanoseconds since the
/// epoch (`None` when the clock is before it): the low 64 bits, made odd so
/// it is never zero.
pub open spec fn spec_seed_of(nanos: Option<u128>) -> u64 {
    match nanos {
        Some(n) => (n as u64) | 1u64,
        None => 0x2545_F491_4F6C_DD1Du64 | 1u64,
    }
}

/// The shuffle's first random state from the clock's reading.
pub fn seed_of(nanos: Option<u128>) -> (s: u64)
    ensures
        s == spec_seed_of(nanos),
        s != 0,
{
    match nanos {
        Some(n) => {
            let t = n as u64;
            assert((t | 1u64) != 0u64) by (bit_vector);
            t | 1u64
        },
        None => {
            assert((0x2545_F491_4F6C_DD1Du64 | 1u64) != 0u64) by (bit_vector);
            0x2545_F491_4F6C_DD1Du64 | 1u64
        },
    }
}

pub struct Queue {
    /// Library rows, in the order the view had them when playback started.
    pub tracks: Vec<usize>,
    /// The place in `tracks` being played.
    pub pos: usize,
    /// Places played before this one under shuffle, the latest last.
    pub history: Vec<usize>,
    /// The shuffle's random state; never zero.
    pub rng: u64,
}

/// What a step through the queue asks of the player.
#[derive(Clone, Copy, PartialEq, Eq, Structural, Debug)]
pub enum Step {
    /// Play the track at the queue's place.
    Play,
    /// The queue ran out: stop.
    Stop,
    /// Shuffle has nothing to go back to.
    NothingBefore,
    /// There is no queue.
    Idle,
}

/// The xorshift step: three shifts, each folded back in.
pub open spec fn xorshift(x: u64) -> u64 {
    let a = x ^ (x << 13u64);
    let b = a ^ (a >> 7u64);
    b ^ (b << 17u64)
}

/// What a step through the queue does: the place afterwards, the history
/// afterwards, the random state afterwards, and what to tell the player.
pub open spec fn spec_advance(
    tracks: Seq<usize>,
    pos: usize,
    history: Seq<usize>,
    rng: u64,
    delta: isize,
    auto: bool,
    repeat: Repeat,
    shuffle: bool,
) -> (usize, Seq<usize>, u64, Step) {
    if tracks.len() == 0 {
        (pos, history, rng, Step::Idle)
    } else if auto && repeat == Repeat::One {
        (pos, history, rng, Step::Play)
    } else if shuffle {
        if delta > 0 {
            let r = xorshift(rng);
            ((r % (tracks.len() as u64)) as usize, history.push(pos), r, Step::Play)
        } else if history.len() > 0 {
            (history.last(), history.drop_last(), rng, Step::Play)
        } else {
            (pos, history, rng, Step::NothingBefore)
        }
    } else {
        let next = pos + delta;
        if next < 0 {
            (0, history, rng, Step::Play)
        } else if next >= tracks.len() {
            if repeat == Repeat::All {
                (0, history, rng, Step::Play)
            } else {
                (pos, history, rng, Step::Stop)
            }
        } else {
            (next as usize, history, rng, Step::Play)
        }
    }
}

impl Queue {
    /// Playback starting at row `cur` of the view: the view becomes the
    /// queue, and nothing has been heard before it.
    pub fn start(view: Vec<usize>, cur: usize, rng: u64) -> (q: Queue)
        ensures
            q.tracks@ == view@,
            q.pos == cur,
            q.history@.len() == 0,
            q.rng == rng,
    {
        Queue { tracks: view, pos: cur, history: Vec::new(), rng }
    }

    /// The library row at the queue's place, when there is one.
    pub fn current(&self) -> (r: Option<usize>)
        ensures
            self.pos < self.tracks@.len() ==> r == Some(self.tracks@[self.pos as int]),
            self.pos >= self.tracks@.len() ==> r is None,
    {
        if self.pos < self.tracks.len() {
            Some(self.tracks[self.pos])
        } else {
            None
        }
    }

    /// A place in the queue at random, moving the random state on.
    pub fn next_random(&mut self) -> (p: usize)
        requires
            old(self).tracks@.len() > 0,
        ensures
            final(self).rng == xorshift(old(self).rng),
            p == final(self).rng % (old(self).tracks@.len() as u64),
            p < old(self).tracks@.len(),
            final(self).tracks@ == old(self).tracks@,
            final(self).pos == old(self).pos,
            final(self).history@ == old(self).history@,
    {
        let x = self.rng;
        let a = x ^ (x << 13u64);
        let b = a ^ (a >> 7u64);
        let c = b ^ (b << 17u64);
        self.rng = c;
        (c % (self.tracks.len() as u64)) as usize
    }

    /// Moves through the queue by `delta`. `auto` is a track ending on its
    /// own, the only case where repeating one track replays it. Shuffle keeps
    /// a history, because going back has to mean the track just heard.
    pub fn advance(&mut self, delta: isize, auto: bool, repeat: Repeat, shuffle: bool) -> (s: Step)
        ensures
            (final(self).pos, final(self).history@, final(self).rng, s) == spec_advance(
                old(self).tracks@,
                old(self).pos,
                old(self).history@,
                old(self).rng,
                delta,
                auto,
                repeat,
                shuffle,
            ),
            final(self).tracks@ == old(self).tracks@,
    {
        if self.tracks.len() == 0 {
            return Step::Idle;
        }
        if auto && repeat == Repeat::One {
            return Step::Play;
        }
        if shuffle {
            if delta > 0 {
                self.history.push(self.pos);
                self.pos = self.next_random();
                return Step::Play;
            }
            match self.history.pop() {
                Some(previous) => {
                    self.pos = previous;
                    return Step::Play;
                },
                None => {
                    return Step::NothingBefore;
                },
            }
        }
        let next: i128 = (self.pos as i128) + (delta as i128);
        if next < 0 {
            self.pos = 0;
        } else if next >= self.tracks.len() as i128 {
            if repeat == Repeat::All {
                self.pos = 0;
            } else {
                return Step::Stop;
            }
        } else {
            self.pos = next as usize;
        }
        Step::Play
    }
}

/// A step forward and then one back, with everything else as it was.
pub open spec fn there_and_back(
    tracks: Seq<usize>,
    pos: usize,
    history: Seq<usize>,
    rng: u64,
    repeat: Repeat,
    shuffle: bool,
) -> ((usize, Seq<usize>, u64, Step), (usize, Seq<usize>, u64, Step)) {
    let first = spec_advance(tracks, pos, history, rng, 1isize, false, repeat, shuffle);
    let second = spec_advance(tracks, first.0, first.1, first.2, -1isize, false, repeat, shuffle);
    (first, second)
}

/// Under shuffle, `>` then `<` comes back to the track that was actually
/// playing, however far the shuffle jumped: going back means the track just
/// heard, not the one before it in the queue.
pub proof fn law_shuffle_goes_back_to_what_was_played(
    tracks: Seq<usize>,
    pos: usize,
    history: Seq<usize>,
    rng: u64,
    repeat: Repeat,
)
    requires
        tracks.len() > 0,
    ensures
        there_and_back(tracks, pos, history, rng, repeat, true).0.3 == Step::Play,
        there_and_back(tracks, pos, history, rng, repeat, true).1.3 == Step::Play,
        there_and_back(tracks, pos, history, rng, repeat, true).1.0 == pos,
        there_and_back(tracks, pos, history, rng, repeat, true).1.1 == history,
{
    let first = spec_advance(tracks, pos, history, rng, 1isize, false, repeat, true);
    assert(first.1 == history.push(pos));
    assert(first.1.drop_last() =~= history);
}

/// Without shuffle, `>` then `<` comes back to the same place, as long as
/// there was a next place to go to.
pub proof fn law_next_then_previous_comes_back(
    tracks: Seq<usize>,
    pos: usize,
    history: Seq<usize>,
    rng: u64,
    repeat: Repeat,
)
    requires
        pos + 1 < tracks.len(),
        tracks.len() <= usize::MAX,
    ensures
        there_and_back(tracks, pos, history, rng, repeat, false).0.3 == Step::Play,
        there_and_back(tracks, pos, history, rng, repeat, false).1.3 == Step::Play,
        there_and_back(tracks, pos, history, rng, repeat, false).1.0 == pos,
        there_and_back(tracks, pos, history, rng, repeat, false).1.1 == history,
{
    let first = spec_advance(tracks, pos, history, rng, 1isize, false, repeat, false);
    assert(first.0 == pos + 1);
}

/// A track that ends on its own under repeat one plays again, shuffle or
/// not, and the queue stays where it was.
pub proof fn law_repeat_one_replays(
    tracks: Seq<usize>,
    pos: usize,
    history: Seq<usize>,
    rng: u64,
    delta: isize,
    shuffle: bool,
)
    requires
        tracks.len() > 0,
    ensures
        spec_advance(tracks, pos, history, rng, delta, true, Repeat::One, shuffle) == (
            pos,
            history,
            rng,
            Step::Play,
        ),
{
}

/// Off the end of the queue, repeat all starts it over and anything else
/// stops where it is.
pub proof fn law_the_end_of_the_queue(
    tracks: Seq<usize>,
    history: Seq<usize>,
    rng: u64,
    repeat: Repeat,
)
    requires
        tracks.len() > 0,
        tracks.len() < isize::MAX,
        repeat != Repeat::One,
    ensures
        repeat == Repeat::All ==> spec_advance(tracks, (tracks.len() - 1) as usize, history, rng, 1isize, true, repeat, false).0 == 0,
        repeat == Repeat::All ==> spec_advance(tracks, (tracks.len() - 1) as usize, history, rng, 1isize, true, repeat, false).3 == Step::Play,
        repeat == Repeat::Off ==> spec_advance(tracks, (tracks.len() - 1) as usize, history, rng, 1isize, true, repeat, false).0 == tracks.len() - 1,
        repeat == Repeat::Off ==> spec_advance(tracks, (tracks.len() - 1) as usize, history, rng, 1isize, true, repeat, false).3 == Step::Stop,
{
}

} // verus!
