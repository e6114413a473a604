use crate::attributes::{PlayerId, RigidBody};
use vstd::prelude::*;

verus! {

/// The ball at one frame, or nothing where it is not known.
#[derive(Clone, Copy, PartialEq, Eq, Structural, Debug)]
pub enum BallFrame {
    Empty,
    Data { rigid_body: RigidBody },
}

/// A player's car at one frame, with its boost in millionths of a unit, or nothing where
/// it cannot be resolved.
#[derive(Clone, Copy, PartialEq, Eq, Structural, Debug)]
pub enum PlayerFrame {
    Empty,
    Data { rigid_body: RigidBody, boost_amount: u64 },
}

/// Match data at one frame: the frame's time in microseconds, and the clock where the
/// game-rules actor already reports it.
#[derive(Clone, Copy, PartialEq, Eq, Structural, Debug)]
pub struct MetadataFrame {
    pub time: u64,
    pub seconds_remaining: Option<u8>,
}

/// The frames of one player, one per frame index.
#[derive(Clone, PartialEq, Eq, Debug)]
pub struct PlayerData {
    pub frames: Vec<PlayerFrame>,
}

/// The frames of the ball, one per frame index.
#[derive(Clone, PartialEq, Eq, Debug)]
pub struct BallData {
    pub frames: Vec<BallFrame>,
}

/// The reconstructed timeline: the ball, each player in the order first seen, and the
/// match data, all indexed by frame.
#[derive(Clone, PartialEq, Eq, Debug)]
pub struct ReplayData {
    pub ball_data: BallData,
    pub players: Vec<(PlayerId, PlayerData)>,
    pub frame_metadata: Vec<MetadataFrame>,
}

/// `s` padded with `pad` up to length `n` (unchanged where it is already that long), then
/// `x` appended.
pub open spec fn padded_push<T>(s: Seq<T>, n: nat, pad: T, x: T) -> Seq<T> {
    if s.len() < n {
        (s + Seq::new((n - s.len()) as nat, |_i: int| pad)).push(x)
    } else {
        s.push(x)
    }
}

/// The players of a timeline, by id.
pub open spec fn player_ids(players: Seq<(PlayerId, PlayerData)>) -> Seq<PlayerId> {
    players.map_values(|e: (PlayerId, PlayerData)| e.0)
}

impl PlayerData {
    /// A player with no frames yet.
    pub fn new() -> (r: PlayerData)
        ensures
            r.frames@ == Seq::<PlayerFrame>::empty(),
    {
        PlayerData { frames: Vec::new() }
    }

    /// Appends the record of frame `frame_number` (counted from one), first padding with
    /// empty records any frames that this player missed.
    pub fn add_frame(&mut self, frame_number: usize, frame: PlayerFrame)
        requires
            frame_number >= 1,
        ensures
            final(self).frames@ == padded_push(
                old(self).frames@,
                (frame_number - 1) as nat,
                PlayerFrame::Empty,
                frame,
            ),
    {
        let ghost s = self.frames@;
        while self.frames.len() < frame_number - 1
            invariant
                frame_number >= 1,
                s == old(self).frames@,
                self.frames@.len() >= s.len(),
                s.len() < frame_number - 1 ==> self.frames@.len() <= frame_number - 1,
                self.frames@ == s + Seq::new(
                    (self.frames@.len() - s.len()) as nat,
                    |_i: int| PlayerFrame::Empty,
                ),
                s.len() >= frame_number - 1 ==> self.frames@ == s,
            decreases frame_number - 1 - self.frames.len(),
        {
            self.frames.push(PlayerFrame::Empty);
            assert(self.frames@ =~= s + Seq::new(
                (self.frames@.len() - s.len()) as nat,
                |_i: int| PlayerFrame::Empty,
            ));
        }
        proof {
            if s.len() >= frame_number - 1 {
                assert(s + Seq::new(0, |_i: int| PlayerFrame::Empty) =~= s);
            }
        }
        self.frames.push(frame);
    }
}

impl BallData {
    /// Appends the record of frame `frame_number` (counted from one), first padding with
    /// empty records any frames that were missed.
    pub fn add_frame(&mut self, frame_number: usize, frame: BallFrame)
        requires
            frame_number >= 1,
        ensures
            final(self).frames@ == padded_push(
                old(self).frames@,
                (frame_number - 1) as nat,
                BallFrame::Empty,
                frame,
            ),
    {
        let ghost s = self.frames@;
        while self.frames.len() < frame_number - 1
            invariant
                frame_number >= 1,
                s == old(self).frames@,
                self.frames@.len() >= s.len(),
                s.len() < frame_number - 1 ==> self.frames@.len() <= frame_number - 1,
                self.frames@ == s + Seq::new(
                    (self.frames@.len() - s.len()) as nat,
                    |_i: int| BallFrame::Empty,
                ),
                s.len() >= frame_number - 1 ==> self.frames@ == s,
            decreases frame_number - 1 - self.frames.len(),
        {
            self.frames.push(BallFrame::Empty);
            assert(self.frames@ =~= s + Seq::new(
                (self.frames@.len() - s.len()) as nat,
                |_i: int| BallFrame::Empty,
            ));
        }
        proof {
            if s.len() >= frame_number - 1 {
                assert(s + Seq::new(0, |_i: int| BallFrame::Empty) =~= s);
            }
        }
        self.frames.push(frame);
    }
}

impl BallFrame {
    /// The record of a ball with the given rigid body.
    pub fn from_data(rigid_body: &RigidBody) -> (r: BallFrame)
        ensures
            r == (BallFrame::Data { rigid_body: *rigid_body }),
    {
        BallFrame::Data { rigid_body: *rigid_body }
    }
}

impl PlayerFrame {
    /// The record of a car with the given rigid body and boost amount.
    pub fn from_data(rigid_body: RigidBody, boost_amount: u64) -> (r: PlayerFrame)
        ensures
            r == (PlayerFrame::Data { rigid_body, boost_amount }),
    {
        PlayerFrame::Data { rigid_body, boost_amount }
    }
}

impl MetadataFrame {
    /// The match data of a frame.
    pub fn new(time: u64, seconds_remaining: Option<u8>) -> (r: MetadataFrame)
        ensures
            r == (MetadataFrame { time, seconds_remaining }),
    {
        MetadataFrame { time, seconds_remaining }
    }
}

/// The record listed for player `p`, the last one where several are.
pub open spec fn frame_for(list: Seq<(PlayerId, PlayerFrame)>, p: PlayerId) -> Option<PlayerFrame>
    decreases list.len(),
{
    if list.len() == 0 {
        None
    } else if list.last().0 == p {
        Some(list.last().1)
    } else {
        frame_for(list.drop_last(), p)
    }
}

/// The frames of player `p` after a frame whose records are `list`, with `prior` its
/// frames before (empty for a new player).
pub open spec fn next_player_frames(
    prior: Seq<PlayerFrame>,
    list: Seq<(PlayerId, PlayerFrame)>,
    p: PlayerId,
    frame_number: nat,
) -> Seq<PlayerFrame> {
    match frame_for(list, p) {
        Some(f) => padded_push(prior, (frame_number - 1) as nat, PlayerFrame::Empty, f),
        None => prior,
    }
}

proof fn lemma_frame_for_absent(list: Seq<(PlayerId, PlayerFrame)>, p: PlayerId)
    requires
        forall|i: int| 0 <= i < list.len() ==> list[i].0 != p,
    ensures
        frame_for(list, p) is None,
    decreases list.len(),
{
    if list.len() > 0 {
        lemma_frame_for_absent(list.drop_last(), p);
    }
}

pub(crate) proof fn lemma_frame_for_present(list: Seq<(PlayerId, PlayerFrame)>, i: int)
    requires
        0 <= i < list.len(),
        forall|j: int| 0 <= j < list.len() && j != i ==> list[j].0 != list[i].0,
    ensures
        frame_for(list, list[i].0) == Some(list[i].1),
    decreases list.len(),
{
    if i < list.len() - 1 {
        lemma_frame_for_present(list.drop_last(), i);
    }
}

impl ReplayData {
    /// An empty timeline.
    pub fn new() -> (r: ReplayData)
        ensures
            r.ball_data.frames@.len() == 0,
            r.players@.len() == 0,
            r.frame_metadata@.len() == 0,
    {
        ReplayData {
            ball_data: BallData { frames: Vec::new() },
            players: Vec::new(),
            frame_metadata: Vec::new(),
        }
    }

    /// Each player appears once, and no sequence runs ahead of the match data.
    pub open spec fn wf(&self) -> bool {
        &&& self.ball_data.frames@.len() <= self.frame_metadata@.len()
        &&& forall|i: int| #![trigger self.players@[i]]
            0 <= i < self.players@.len() ==> self.players@[i].1.frames@.len()
                <= self.frame_metadata@.len()
        &&& forall|i: int, j: int|
            0 <= i < self.players@.len() && 0 <= j < self.players@.len() && i != j
                ==> #[trigger] self.players@[i].0 != #[trigger] self.players@[j].0
    }

    /// Appends one frame: the match data, the ball's record and the listed players'
    /// records, each sequence padded first with empty records for frames it missed. A
    /// player listed for the first time is added after the known ones.
    pub fn add_frame(
        &mut self,
        frame_metadata: MetadataFrame,
        ball_frame: BallFrame,
        player_frames: Vec<(PlayerId, PlayerFrame)>,
    )
        requires
            old(self).wf(),
            old(self).frame_metadata@.len() < usize::MAX,
            forall|i: int, j: int|
                0 <= i < player_frames@.len() && 0 <= j < player_frames@.len() && i != j
                    ==> #[trigger] player_frames@[i].0 != #[trigger] player_frames@[j].0,
        ensures
            final(self).wf(),
            final(self).frame_metadata@ == old(self).frame_metadata@.push(frame_metadata),
            final(self).ball_data.frames@ == padded_push(
                old(self).ball_data.frames@,
                old(self).frame_metadata@.len(),
                BallFrame::Empty,
                ball_frame,
            ),
            final(self).players@.len() >= old(self).players@.len(),
            forall|i: int| #![trigger final(self).players@[i]]
                0 <= i < old(self).players@.len() ==> final(self).players@[i].0 == old(
                    self,
                ).players@[i].0 && final(self).players@[i].1.frames@ == next_player_frames(
                    old(self).players@[i].1.frames@,
                    player_frames@,
                    old(self).players@[i].0,
                    final(self).frame_metadata@.len(),
                ),
            forall|i: int| #![trigger final(self).players@[i]]
                old(self).players@.len() <= i < final(self).players@.len() ==> frame_for(
                    player_frames@,
                    final(self).players@[i].0,
                ) is Some && final(self).players@[i].1.frames@ == next_player_frames(
                    Seq::empty(),
                    player_frames@,
                    final(self).players@[i].0,
                    final(self).frame_metadata@.len(),
                ),
            forall|q: int| #![trigger player_frames@[q]]
                0 <= q < player_frames@.len() ==> player_ids(final(self).players@).contains(
                    player_frames@[q].0,
                ),
    {
        self.frame_metadata.push(frame_metadata);
        let frame_number = self.frame_metadata.len();
        self.ball_data.add_frame(frame_number, ball_frame);
        let ghost old_players = self.players@;
        let mut k: usize = 0;
        while k < player_frames.len()
            invariant
                k <= player_frames@.len(),
                frame_number == self.frame_metadata@.len(),
                frame_number >= 1,
                self.wf(),
                self.frame_metadata@ == old(self).frame_metadata@.push(frame_metadata),
                self.ball_data.frames@ == padded_push(
                    old(self).ball_data.frames@,
                    old(self).frame_metadata@.len(),
                    BallFrame::Empty,
                    ball_frame,
                ),
                old_players == old(self).players@,
                self.players@.len() >= old_players.len(),
                forall|i: int, j: int|
                    0 <= i < player_frames@.len() && 0 <= j < player_frames@.len() && i != j
                        ==> #[trigger] player_frames@[i].0 != #[trigger] player_frames@[j].0,
                forall|i: int| #![trigger self.players@[i]]
                    0 <= i < old_players.len() ==> self.players@[i].0 == old_players[i].0
                        && self.players@[i].1.frames@ == next_player_frames(
                        old_players[i].1.frames@,
                        player_frames@.take(k as int),
                        old_players[i].0,
                        frame_number as nat,
                    ),
                forall|i: int| #![trigger self.players@[i]]
                    old_players.len() <= i < self.players@.len() ==> frame_for(
                        player_frames@.take(k as int),
                        self.players@[i].0,
                    ) is Some && self.players@[i].1.frames@ == next_player_frames(
                        Seq::empty(),
                        player_frames@.take(k as int),
                        self.players@[i].0,
                        frame_number as nat,
                    ),
                forall|q: int| #![trigger player_frames@[q]]
                    0 <= q < k ==> exists|i: int|
                        0 <= i < self.players@.len() && #[trigger] self.players@[i].0
                            == player_frames@[q].0,
                forall|i: int| #![trigger old_players[i]]
                    0 <= i < old_players.len() ==> old_players[i].1.frames@.len() < frame_number,
                forall|i: int, j: int|
                    0 <= i < old_players.len() && 0 <= j < old_players.len() && i != j
                        ==> #[trigger] old_players[i].0 != #[trigger] old_players[j].0,
            decreases player_frames.len() - k,
        {
            let (p, f) = player_frames[k];
            let ghost prev = player_frames@.take(k as int);
            let ghost next = player_frames@.take(k as int + 1);
            assert(next.drop_last() =~= prev);
            assert(next.last() == (p, f));
            proof {
                assert forall|q: int| 0 <= q < prev.len() implies prev[q].0 != p by {
                    assert(prev[q] == player_frames@[q]);
                }
                lemma_frame_for_absent(prev, p);
            }
            let mut idx: usize = 0;
            while idx < self.players.len() && self.players[idx].0 != p
                invariant
                    idx <= self.players@.len(),
                    forall|i: int| 0 <= i < idx ==> self.players@[i].0 != p,
                decreases self.players.len() - idx,
            {
                idx += 1;
            }
            let ghost before = self.players@;
            proof {
                if idx < before.len() {
                    if idx >= old_players.len() {
                        assert(frame_for(prev, before[idx as int].0) is Some);
                    }
                }
            }
            if idx < self.players.len() {
                self.players[idx].1.add_frame(frame_number, f);
                assert(self.players@[idx as int].0 == p);
            } else {
                let mut d = PlayerData::new();
                d.add_frame(frame_number, f);
                self.players.push((p, d));
                assert(self.players@[idx as int].0 == p);
            }
            proof {
                assert(frame_for(next, p) == Some(f));
                assert forall|i: int| 0 <= i < before.len() && before[i].0 != p implies frame_for(
                    next,
                    before[i].0,
                ) == frame_for(prev, before[i].0) by {}
                assert forall|i: int| #![trigger self.players@[i]]
                    0 <= i < self.players@.len() && i != idx implies self.players@[i]
                    == before[i] by {}
                assert forall|q: int| #![trigger player_frames@[q]]
                    0 <= q < k + 1 implies exists|i: int|
                        0 <= i < self.players@.len() && #[trigger] self.players@[i].0
                            == player_frames@[q].0 by {
                    if q == k {
                        assert(self.players@[idx as int].0 == p);
                    } else {
                        let i = choose|i: int|
                            0 <= i < before.len() && #[trigger] before[i].0 == player_frames@[q].0;
                        assert(self.players@[i].0 == player_frames@[q].0);
                    }
                }
            }
            k += 1;
        }
        assert(player_frames@.take(k as int) =~= player_frames@);
        assert forall|q: int| #![trigger player_frames@[q]]
            0 <= q < player_frames@.len() implies player_ids(self.players@).contains(
                player_frames@[q].0,
            ) by {
            assert(q < k);
            let i = choose|i: int|
                0 <= i < self.players@.len() && #[trigger] self.players@[i].0 == player_frames@[q].0;
            assert(player_ids(self.players@)[i] == player_frames@[q].0);
        }
    }
}

} // verus!
