use vstd::prelude::*;

use crate::side::{side_label, side_text, FlagOwnership, Side};
use crate::text::{decimal, push_decimal};

verus! {

/// Frames a squad may hold a flag before the flag turns neutral again.
pub const HOLD_LIMIT: u64 = 1800;

/// The squad id a ban falls on when a hold with no squad on record runs
/// out; the ban replaces any earlier one on the flag.
pub const UNRECORDED_SQUAD: u64 = 0;

/// The expiry frame of a ban that never expires.
pub const FOREVER: u64 = 0xffff_ffff_ffff_ffff;

/// Frames that must pass between two scout rotations of one company.
pub const ROTATION_GAP: u64 = 180;

/// Within this many metres of a taken flag, suppressing fire is called off.
pub const CEASE_FIRE_RANGE: i64 = 30;

/// Within this many metres of a taken flag, a squad leader counts as its taker.
pub const TAKER_RANGE: i64 = 40;

/// Since when, and by which squad, a flag has been held. A hold can run
/// with no squad on record: a camp keeps a flag it took even when none of
/// its squads that may take it stands inside any more.
#[derive(Clone, Copy, Debug, PartialEq, Eq, Structural)]
pub struct Hold {
    pub since: u64,
    pub squad: Option<u64>,
}

/// A squad that may not help take a flag until frame `until`.
#[derive(Clone, Copy, Debug, PartialEq, Eq, Structural)]
pub struct Ban {
    pub until: u64,
    pub squad: u64,
}

/// What is remembered of one flag between ticks.
#[derive(Clone, Copy, Debug, PartialEq, Eq, Structural)]
pub struct FlagTrack {
    pub hold: Option<Hold>,
    pub ban: Option<Ban>,
}

/// What one tick decided for one flag.
#[derive(Clone, Copy, Debug, PartialEq, Eq, Structural)]
pub struct FlagStep {
    /// The flag's owner after the tick.
    pub ownership: FlagOwnership,
    /// The squad credited with holding the flag for its camp this tick:
    /// the first unbanned squad of the owning camp found inside.
    pub taker: Option<u64>,
    /// Whether the flag's hold ran out this tick, turning the flag neutral.
    pub released: bool,
    /// The squad whose hold ran out this tick, when the hold had one on record.
    pub expired_holder: Option<u64>,
    /// The camp that took the flag this tick, if the owner changed to one camp.
    pub taken_by: Option<Side>,
    /// Whether the flag's ban was lifted because another squad took the flag.
    pub ban_lifted: bool,
}

/// The hold and ban records of every flag on the map, by flag index.
pub struct FlagBook {
    tracks: Vec<FlagTrack>,
}

/// A flag owned by exactly one camp.
pub open spec fn held_by_one_camp(o: FlagOwnership) -> bool {
    o == FlagOwnership::A || o == FlagOwnership::B
}

/// The owner of a flag after a tick in which camp A is (or is not) inside
/// it and camp B is (or is not) inside it.
pub open spec fn ownership_after(
    old: FlagOwnership,
    a_inside: bool,
    b_inside: bool,
) -> FlagOwnership {
    if a_inside && b_inside {
        FlagOwnership::Both
    } else if a_inside {
        FlagOwnership::A
    } else if b_inside {
        FlagOwnership::B
    } else {
        old
    }
}

/// Whether `squad` is banned from flag `track` at `frame`.
pub open spec fn banned(track: FlagTrack, squad: u64, frame: u64) -> bool {
    match track.ban {
        Some(ban) => ban.until > frame && ban.squad == squad,
        None => false,
    }
}

/// The squads of `inside` that may help take the flag, in their order.
pub open spec fn unbanned(inside: Seq<u64>, track: FlagTrack, frame: u64) -> Seq<u64>
    decreases inside.len(),
{
    if inside.len() == 0 {
        inside
    } else {
        let rest = unbanned(inside.drop_last(), track, frame);
        if banned(track, inside.last(), frame) {
            rest
        } else {
            rest.push(inside.last())
        }
    }
}

/// The first element of a sequence, if there is one.
pub open spec fn first_of(s: Seq<u64>) -> Option<u64> {
    if s.len() > 0 {
        Some(s[0])
    } else {
        None
    }
}

/// The squad that holds a flag now, given its earlier hold record and
/// the squad found taking it this tick.
/// A squad that already holds the flag keeps its timer; a squad other than
/// the one on record (or the first one, when none is on record) restarts
/// it; with no squad taking the flag the timer runs on.
pub open spec fn renewed_hold(hold: Option<Hold>, frame: u64, taker: Option<u64>) -> Hold {
    match hold {
        None => Hold { since: frame, squad: taker },
        Some(h) => if taker is Some && h.squad != taker {
            Hold { since: frame, squad: taker }
        } else {
            h
        },
    }
}

/// The squad banned for good when a hold runs out: its holder, or
/// [`UNRECORDED_SQUAD`] when the hold had no squad on record.
pub open spec fn banned_squad(hold: Hold) -> u64 {
    match hold.squad {
        Some(sq) => sq,
        None => UNRECORDED_SQUAD,
    }
}

/// Whether a hold has lasted its limit at `frame`.
pub open spec fn hold_ran_out(hold: Hold, frame: u64) -> bool {
    frame >= hold.since && frame - hold.since >= HOLD_LIMIT
}

/// The camp of a single-camp owner.
pub open spec fn camp_of(o: FlagOwnership) -> Side {
    if o == FlagOwnership::A {
        Side::A
    } else {
        Side::B
    }
}

/// One tick on one flag: the flag's new record and what was decided.
pub open spec fn flag_tick(
    track: FlagTrack,
    frame: u64,
    current: FlagOwnership,
    a_inside: Seq<u64>,
    b_inside: Seq<u64>,
) -> (FlagTrack, FlagStep) {
    let a = unbanned(a_inside, track, frame);
    let b = unbanned(b_inside, track, frame);
    let proposed = ownership_after(current, a.len() > 0, b.len() > 0);
    if held_by_one_camp(proposed) {
        let taker = if proposed == FlagOwnership::A {
            first_of(a)
        } else {
            first_of(b)
        };
        let hold = renewed_hold(track.hold, frame, taker);
        if hold_ran_out(hold, frame) {
            (
                FlagTrack {
                    hold: None,
                    ban: Some(Ban { until: FOREVER, squad: banned_squad(hold) }),
                },
                FlagStep {
                    ownership: FlagOwnership::Nobody,
                    taker,
                    released: true,
                    expired_holder: hold.squad,
                    taken_by: None,
                    ban_lifted: false,
                },
            )
        } else if current != proposed {
            let lift = match (taker, track.ban) {
                (Some(sq), Some(ban)) => ban.squad != sq,
                _ => false,
            };
            (
                FlagTrack {
                    hold: Some(hold),
                    ban: if lift {
                        None
                    } else {
                        track.ban
                    },
                },
                FlagStep {
                    ownership: proposed,
                    taker,
                    released: false,
                    expired_holder: None,
                    taken_by: Some(camp_of(proposed)),
                    ban_lifted: lift,
                },
            )
        } else {
            (
                FlagTrack { hold: Some(hold), ban: track.ban },
                FlagStep {
                    ownership: proposed,
                    taker,
                    released: false,
                    expired_holder: None,
                    taken_by: None,
                    ban_lifted: false,
                },
            )
        }
    } else {
        (
            FlagTrack { hold: None, ban: track.ban },
            FlagStep {
                ownership: proposed,
                taker: None,
                released: false,
                expired_holder: None,
                taken_by: None,
                ban_lifted: false,
            },
        )
    }
}

/// The records of `n` flags taken from `tracks`: those it has, then empty
/// ones.
pub open spec fn fitted(tracks: Seq<FlagTrack>, n: nat) -> Seq<FlagTrack> {
    Seq::new(
        n,
        |i: int|
            if i < tracks.len() {
                tracks[i]
            } else {
                FlagTrack { hold: None, ban: None }
            },
    )
}

/// A flag's record once the bans that ran out by `frame` are dropped.
pub open spec fn without_stale_ban(track: FlagTrack, frame: u64) -> FlagTrack {
    match track.ban {
        Some(ban) => if ban.until > frame {
            track
        } else {
            FlagTrack { hold: track.hold, ban: None }
        },
        None => track,
    }
}

/// Whether flags are re-evaluated at `frame`.
pub fn is_flag_frame(frame: u64, update_every: u64) -> (due: bool)
    requires
        update_every > 0,
    ensures
        due == (frame % update_every == 0),
{
    frame % update_every == 0
}

/// The owner of a flag after a tick; see [`ownership_after`].
pub fn next_ownership(old: FlagOwnership, a_inside: bool, b_inside: bool) -> (o: FlagOwnership)
    ensures
        o == ownership_after(old, a_inside, b_inside),
        a_inside && b_inside ==> o == FlagOwnership::Both,
        a_inside && !b_inside ==> o == FlagOwnership::A,
        !a_inside && b_inside ==> o == FlagOwnership::B,
        !a_inside && !b_inside ==> o == old,
{
    match (a_inside, b_inside) {
        (true, true) => FlagOwnership::Both,
        (true, false) => FlagOwnership::A,
        (false, true) => FlagOwnership::B,
        (false, false) => old,
    }
}

/// Whether two ownership lists differ.
pub fn ownerships_changed(old: &Vec<FlagOwnership>, new: &Vec<FlagOwnership>) -> (changed: bool)
    ensures
        changed == (old@ != new@),
{
    if old.len() != new.len() {
        return true;
    }
    let mut i: usize = 0;
    while i < old.len()
        invariant
            old@.len() == new@.len(),
            i <= old@.len(),
            forall|j: int| 0 <= j < i ==> old@[j] == new@[j],
        decreases old@.len() - i,
    {
        if old[i] != new[i] {
            assert(old@[i as int] != new@[i as int]);
            return true;
        }
        i = i + 1;
    }
    assert(old@ =~= new@);
    false
}

impl FlagBook {
    /// The records of all flags, by flag index.
    pub closed spec fn view(&self) -> Seq<FlagTrack> {
        self.tracks@
    }

    /// A book for `flag_count` flags, none held and none banned.
    pub fn new(flag_count: usize) -> (book: FlagBook)
        ensures
            book.view() == Seq::new(flag_count as nat, |i: int| FlagTrack { hold: None, ban: None }),
    {
        let mut tracks: Vec<FlagTrack> = Vec::new();
        let mut i: usize = 0;
        while i < flag_count
            invariant
                i <= flag_count,
                tracks@ == Seq::new(i as nat, |k: int| FlagTrack { hold: None, ban: None }),
            decreases flag_count - i,
        {
            tracks.push(FlagTrack { hold: None, ban: None });
            i = i + 1;
            assert(tracks@ =~= Seq::new(i as nat, |k: int| FlagTrack { hold: None, ban: None }));
        }
        FlagBook { tracks }
    }

    /// Makes the book hold `flag_count` flags: the records of the first
    /// `flag_count` flags stay, flags beyond the old count start with no
    /// hold and no ban, and records beyond `flag_count` are dropped.
    pub fn fit(&mut self, flag_count: usize)
        ensures
            final(self).view() == fitted(old(self).view(), flag_count as nat),
    {
        while self.tracks.len() > flag_count
            invariant
                self.tracks@.len() <= old(self).view().len(),
                flag_count <= self.tracks@.len() || self.tracks@.len() == old(self).view().len(),
                self.tracks@ == old(self).view().subrange(0, self.tracks@.len() as int),
            decreases self.tracks@.len(),
        {
            self.tracks.pop();
        }
        assert forall|i: int|
            0 <= i < self.tracks@.len() implies #[trigger] self.tracks@[i] == fitted(
                old(self).view(),
                flag_count as nat,
            )[i] by {
            assert(self.tracks@[i] == old(self).view()[i]);
        }
        while self.tracks.len() < flag_count
            invariant
                old(self).view().len() <= self.tracks@.len() || self.tracks@.len() == flag_count,
                self.tracks@.len() <= flag_count,
                forall|i: int|
                    0 <= i < self.tracks@.len() ==> #[trigger] self.tracks@[i] == fitted(
                        old(self).view(),
                        flag_count as nat,
                    )[i],
            decreases flag_count - self.tracks@.len(),
        {
            self.tracks.push(FlagTrack { hold: None, ban: None });
        }
        assert(self.tracks@ =~= fitted(old(self).view(), flag_count as nat));
    }

    /// The number of flags.
    pub fn len(&self) -> (n: usize)
        ensures
            n == self.view().len(),
    {
        self.tracks.len()
    }

    /// The record of one flag.
    pub fn track(&self, flag: usize) -> (t: FlagTrack)
        requires
            flag < self.view().len(),
        ensures
            t == self.view()[flag as int],
    {
        self.tracks[flag]
    }

    /// Drops every ban that has run out by `frame` (its expiry is not after
    /// `frame`); holds and live bans stay.
    pub fn drop_stale_bans(&mut self, frame: u64)
        ensures
            final(self).view().len() == old(self).view().len(),
            forall|i: int|
                0 <= i < old(self).view().len() ==> #[trigger] final(self).view()[i]
                    == without_stale_ban(old(self).view()[i], frame),
    {
        let n = self.tracks.len();
        let mut i: usize = 0;
        while i < n
            invariant
                n == old(self).view().len(),
                self.tracks@.len() == n,
                i <= n,
                forall|j: int|
                    0 <= j < i ==> #[trigger] self.tracks@[j] == without_stale_ban(
                        old(self).view()[j],
                        frame,
                    ),
                forall|j: int| i <= j < n ==> #[trigger] self.tracks@[j] == old(self).view()[j],
            decreases n - i,
        {
            let t = self.tracks[i];
            match t.ban {
                Some(ban) => {
                    if !(ban.until > frame) {
                        self.tracks.set(i, FlagTrack { hold: t.hold, ban: None });
                    }
                },
                None => {},
            }
            i = i + 1;
        }
    }

    /// The squads of `inside` that are not banned from flag `flag` at `frame`.
    pub fn unbanned_squads(&self, flag: usize, inside: &Vec<u64>, frame: u64) -> (res: Vec<u64>)
        requires
            flag < self.view().len(),
        ensures
            res@ == unbanned(inside@, self.view()[flag as int], frame),
    {
        let track = self.tracks[flag];
        let mut res: Vec<u64> = Vec::new();
        let mut i: usize = 0;
        while i < inside.len()
            invariant
                track == self.view()[flag as int],
                i <= inside@.len(),
                res@ == unbanned(inside@.subrange(0, i as int), track, frame),
            decreases inside@.len() - i,
        {
            let sq = inside[i];
            let is_banned = match track.ban {
                Some(ban) => ban.until > frame && ban.squad == sq,
                None => false,
            };
            if !is_banned {
                res.push(sq);
            }
            proof {
                let next = inside@.subrange(0, i + 1);
                assert(next.drop_last() =~= inside@.subrange(0, i as int));
                assert(next.last() == sq);
            }
            i = i + 1;
        }
        assert(inside@.subrange(0, inside@.len() as int) =~= inside@);
        res
    }

    /// One tick on flag `flag`: works out its new owner from the squads of
    /// each camp found inside it, renews or ends its hold, and bans or
    /// pardons squads, as [`flag_tick`] states.
    pub fn tick_flag(
        &mut self,
        flag: usize,
        frame: u64,
        current: FlagOwnership,
        a_inside: &Vec<u64>,
        b_inside: &Vec<u64>,
    ) -> (step: FlagStep)
        requires
            flag < old(self).view().len(),
        ensures
            ({
                let (track, expected) = flag_tick(
                    old(self).view()[flag as int],
                    frame,
                    current,
                    a_inside@,
                    b_inside@,
                );
                &&& final(self).view() == old(self).view().update(flag as int, track)
                &&& step == expected
            }),
    {
        let track = self.tracks[flag];
        let a = self.unbanned_squads(flag, a_inside, frame);
        let b = self.unbanned_squads(flag, b_inside, frame);
        let proposed = next_ownership(current, a.len() > 0, b.len() > 0);
        if proposed == FlagOwnership::A || proposed == FlagOwnership::B {
            let taker: Option<u64> = if proposed == FlagOwnership::A {
                if a.len() > 0 { Some(a[0]) } else { None }
            } else {
                if b.len() > 0 { Some(b[0]) } else { None }
            };
            let mut hold = match track.hold {
                Some(h) => h,
                None => Hold { since: frame, squad: taker },
            };
            if taker.is_some() && hold.squad != taker {
                hold = Hold { since: frame, squad: taker };
            }
            let lasted = frame.saturating_sub(hold.since);
            if lasted >= HOLD_LIMIT {
                let sq = match hold.squad {
                    Some(sq) => sq,
                    None => UNRECORDED_SQUAD,
                };
                self.tracks.set(
                    flag,
                    FlagTrack { hold: None, ban: Some(Ban { until: FOREVER, squad: sq }) },
                );
                FlagStep {
                    ownership: FlagOwnership::Nobody,
                    taker,
                    released: true,
                    expired_holder: hold.squad,
                    taken_by: None,
                    ban_lifted: false,
                }
            } else if current != proposed {
                let lift = match (taker, track.ban) {
                    (Some(sq), Some(ban)) => ban.squad != sq,
                    _ => false,
                };
                let ban = if lift {
                    None
                } else {
                    track.ban
                };
                self.tracks.set(flag, FlagTrack { hold: Some(hold), ban });
                let camp = if proposed == FlagOwnership::A {
                    Side::A
                } else {
                    Side::B
                };
                FlagStep {
                    ownership: proposed,
                    taker,
                    released: false,
                    expired_holder: None,
                    taken_by: Some(camp),
                    ban_lifted: lift,
                }
            } else {
                self.tracks.set(flag, FlagTrack { hold: Some(hold), ban: track.ban });
                FlagStep {
                    ownership: proposed,
                    taker,
                    released: false,
                    expired_holder: None,
                    taken_by: None,
                    ban_lifted: false,
                }
            }
        } else {
            self.tracks.set(flag, FlagTrack { hold: None, ban: track.ban });
            FlagStep {
                ownership: proposed,
                taker: None,
                released: false,
                expired_holder: None,
                taken_by: None,
                ban_lifted: false,
            }
        }
    }

    /// The flag a squad whose hold ran out should head for next: among the
    /// flags from which the squad is not banned and which its camp does not
    /// already own (alone or shared), the nearest one, the first in index
    /// order among equally near ones; `None` when there is no such flag.
    /// `distances[i]` is the squad leader's distance in metres to flag `i`,
    /// `ownerships[i]` the owner of flag `i` before this tick.
    pub fn retreat_target(
        &self,
        squad: u64,
        camp: Side,
        ownerships: &Vec<FlagOwnership>,
        distances: &Vec<u64>,
    ) -> (target: Option<usize>)
        requires
            ownerships@.len() == self.view().len(),
            distances@.len() == self.view().len(),
        ensures
            target == retreat_scan(
                self.view(),
                squad,
                camp,
                ownerships@,
                distances@,
                self.view().len() as int,
            ),
            match target {
                None => forall|i: int|
                    0 <= i < self.view().len() ==> !#[trigger] retreat_candidate(
                        self.view()[i],
                        squad,
                        ownerships@[i],
                        camp,
                    ),
                Some(t) => {
                    &&& t < self.view().len()
                    &&& retreat_candidate(self.view()[t as int], squad, ownerships@[t as int], camp)
                    &&& forall|j: int|
                        0 <= j < self.view().len() && #[trigger] retreat_candidate(
                            self.view()[j],
                            squad,
                            ownerships@[j],
                            camp,
                        ) ==> distances@[t as int] <= distances@[j] && (j < t ==> distances@[j]
                            > distances@[t as int])
                },
            },
    {
        let n = self.tracks.len();
        let mut best: Option<usize> = None;
        let mut i: usize = 0;
        while i < n
            invariant
                n == self.view().len(),
                ownerships@.len() == n,
                distances@.len() == n,
                i <= n,
                best == retreat_scan(self.view(), squad, camp, ownerships@, distances@, i as int),
                match best {
                    None => forall|k: int|
                        0 <= k < i ==> !#[trigger] retreat_candidate(
                            self.view()[k],
                            squad,
                            ownerships@[k],
                            camp,
                        ),
                    Some(t) => {
                        &&& t < i
                        &&& retreat_candidate(
                            self.view()[t as int],
                            squad,
                            ownerships@[t as int],
                            camp,
                        )
                        &&& forall|j: int|
                            0 <= j < i && #[trigger] retreat_candidate(
                                self.view()[j],
                                squad,
                                ownerships@[j],
                                camp,
                            ) ==> distances@[t as int] <= distances@[j] && (j < t
                                ==> distances@[j] > distances@[t as int])
                    },
                },
            decreases n - i,
        {
            let track = self.tracks[i];
            let banned_here = match track.ban {
                Some(ban) => ban.squad == squad,
                None => false,
            };
            let o = ownerships[i];
            let owned = o == FlagOwnership::Both || (camp == Side::A && o == FlagOwnership::A) || (
            camp == Side::B && o == FlagOwnership::B);
            if !banned_here && !owned {
                match best {
                    None => {
                        best = Some(i);
                    },
                    Some(t) => {
                        if distances[i] < distances[t] {
                            best = Some(i);
                        }
                    },
                }
            }
            i = i + 1;
        }
        best
    }
}

/// The flag a scan of the first `n` flags picks for a squad to head for:
/// the nearest candidate, the earlier one among equally near ones.
pub open spec fn retreat_scan(
    tracks: Seq<FlagTrack>,
    squad: u64,
    camp: Side,
    owners: Seq<FlagOwnership>,
    dist: Seq<u64>,
    n: int,
) -> Option<usize>
    decreases n,
{
    if n <= 0 {
        None
    } else {
        let prev = retreat_scan(tracks, squad, camp, owners, dist, n - 1);
        let i = n - 1;
        if retreat_candidate(tracks[i], squad, owners[i], camp) {
            match prev {
                None => Some(i as usize),
                Some(t) => if dist[i] < dist[t as int] {
                    Some(i as usize)
                } else {
                    prev
                },
            }
        } else {
            prev
        }
    }
}

/// Whether a camp already owns a flag, alone or shared.
pub open spec fn owned_by_camp(o: FlagOwnership, camp: Side) -> bool {
    o == FlagOwnership::Both || (camp == Side::A && o == FlagOwnership::A) || (camp == Side::B
        && o == FlagOwnership::B)
}

/// Whether a flag is one a squad may head for after its hold ran out: the
/// squad holds no ban record on it (whatever its expiry) and its camp does
/// not own it.
pub open spec fn retreat_candidate(
    track: FlagTrack,
    squad: u64,
    o: FlagOwnership,
    camp: Side,
) -> bool {
    let banned_here = match track.ban {
        Some(ban) => ban.squad == squad,
        None => false,
    };
    !banned_here && !owned_by_camp(o, camp)
}

/// The smallest element of a non-empty sequence.
pub open spec fn least(s: Seq<u64>) -> u64
    decreases s.len(),
{
    if s.len() <= 1 {
        s[0]
    } else {
        let m = least(s.drop_last());
        if s.last() < m {
            s.last()
        } else {
            m
        }
    }
}

/// The key under which a company's scout rotation is recorded: its camp,
/// `-group-` and the smallest id among its squads, as in `A-group-4`.
pub fn scout_group_key(camp: Side, squads: &Vec<u64>) -> (key: String)
    requires
        squads@.len() > 0,
    ensures
        exists|k: int|
            0 <= k < squads@.len() && (forall|j: int|
                0 <= j < squads@.len() ==> squads@[k] <= #[trigger] squads@[j]) && key@ == side_text(
                camp,
            ) + "-group-"@ + decimal(squads@[k] as nat),
        key@ == side_text(camp) + "-group-"@ + decimal(least(squads@) as nat),
{
    let mut low: usize = 0;
    let mut i: usize = 1;
    while i < squads.len()
        invariant
            squads@.len() > 0,
            low < i <= squads@.len(),
            forall|j: int| 0 <= j < i ==> squads@[low as int] <= #[trigger] squads@[j],
            squads@[low as int] == least(squads@.subrange(0, i as int)),
        decreases squads@.len() - i,
    {
        proof {
            assert(squads@.subrange(0, i + 1).drop_last() =~= squads@.subrange(0, i as int));
        }
        if squads[i] < squads[low] {
            low = i;
        }
        i = i + 1;
    }
    assert(squads@.subrange(0, squads@.len() as int) =~= squads@);
    let mut key = String::new();
    key.append(side_label(camp));
    key.append("-group-");
    push_decimal(&mut key, squads[low]);
    assert(key@ =~= side_text(camp) + "-group-"@ + decimal(squads@[low as int] as nat));
    key
}

/// The scout rotation of one company: how many times its scouts were
/// replaced, and the frame of the last replacement.
#[derive(Clone, Copy, Debug, PartialEq, Eq, Structural)]
pub struct ScoutTurn {
    pub turn: u64,
    pub last_frame: u64,
}

impl ScoutTurn {
    /// A company whose scouts were never replaced.
    pub fn new() -> (t: ScoutTurn)
        ensures
            t == (ScoutTurn { turn: 0, last_frame: 0 }),
    {
        ScoutTurn { turn: 0, last_frame: 0 }
    }

    /// Replaces the company's scouts at `frame` when more than
    /// [`ROTATION_GAP`] frames passed since the last replacement; returns
    /// whether it did.
    pub fn advance(&mut self, frame: u64) -> (rotated: bool)
        requires
            rotation_due(*old(self), frame) ==> old(self).turn < u64::MAX,
        ensures
            rotated == rotation_due(*old(self), frame),
            rotated ==> *final(self) == (ScoutTurn { turn: (old(self).turn + 1) as u64, last_frame: frame }),
            !rotated ==> *final(self) == *old(self),
    {
        if frame > self.last_frame && frame - self.last_frame > ROTATION_GAP {
            self.turn = self.turn + 1;
            self.last_frame = frame;
            true
        } else {
            false
        }
    }
}

/// Whether more than [`ROTATION_GAP`] frames passed at `frame` since the
/// company's last scout rotation.
pub open spec fn rotation_due(t: ScoutTurn, frame: u64) -> bool {
    frame > t.last_frame + ROTATION_GAP
}

/// How one soldier reacts when its camp takes a flag.
#[derive(Clone, Copy, Debug, PartialEq, Eq, Structural)]
pub struct CaptureReaction {
    /// The soldier's stress is relieved.
    pub relieve_stress: bool,
    /// The soldier stops suppressing fire near the flag and goes idle.
    pub cease_fire: bool,
    /// The soldier leads a squad at the flag: its company's scouts rotate.
    pub rotate_scouts: bool,
    /// The soldier leads its squad back to the squad's checkpoint.
    pub return_to_checkpoint: bool,
}

/// How a soldier reacts when camp `taker` takes a flag: a living soldier
/// of that camp has its stress relieved; it stops suppressing fire aimed
/// within [`CEASE_FIRE_RANGE`] of the flag; and, standing within
/// [`TAKER_RANGE`] of the flag as a squad leader, it rotates its company's
/// scouts and, when its squad has a checkpoint, leads the squad back there.
pub open spec fn reaction(
    taker: Side,
    soldier_side: Side,
    alive: bool,
    suppress_target_distance: Option<i64>,
    flag_distance: i64,
    is_leader: bool,
    has_checkpoint: bool,
) -> CaptureReaction {
    let reacts = soldier_side == taker && alive;
    let near = flag_distance <= TAKER_RANGE;
    CaptureReaction {
        relieve_stress: reacts,
        cease_fire: reacts && match suppress_target_distance {
            Some(d) => d <= CEASE_FIRE_RANGE,
            None => false,
        },
        rotate_scouts: reacts && near && is_leader,
        return_to_checkpoint: reacts && near && is_leader && has_checkpoint,
    }
}

/// How a soldier reacts when camp `taker` takes a flag, as [`reaction`]
/// states. Only living
/// soldiers of that camp react. `suppress_target_distance` is the distance
/// in metres from the flag to the point the soldier is ordered to suppress,
/// if it is suppressing; `flag_distance` the soldier's own distance to the
/// flag.
pub fn capture_reaction(
    taker: Side,
    soldier_side: Side,
    alive: bool,
    suppress_target_distance: Option<i64>,
    flag_distance: i64,
    is_leader: bool,
    has_checkpoint: bool,
) -> (r: CaptureReaction)
    ensures
        r == reaction(
            taker,
            soldier_side,
            alive,
            suppress_target_distance,
            flag_distance,
            is_leader,
            has_checkpoint,
        ),
{
    let reacts = soldier_side == taker && alive;
    if !reacts {
        return CaptureReaction {
            relieve_stress: false,
            cease_fire: false,
            rotate_scouts: false,
            return_to_checkpoint: false,
        };
    }
    let cease_fire = match suppress_target_distance {
        Some(d) => d <= CEASE_FIRE_RANGE,
        None => false,
    };
    let near = flag_distance <= TAKER_RANGE;
    CaptureReaction {
        relieve_stress: true,
        cease_fire,
        rotate_scouts: near && is_leader,
        return_to_checkpoint: near && is_leader && has_checkpoint,
    }
}

/// How a soldier reacts to its camp taking a flag, in terms of its inputs:
/// only a living soldier of the taking camp reacts; its stress is relieved;
/// it ceases fire exactly when it suppresses a point within
/// [`CEASE_FIRE_RANGE`] of the flag, however far it stands from the flag
/// itself; only a squad leader within [`TAKER_RANGE`] rotates scouts, and
/// one whose squad has a checkpoint leads it back.
pub proof fn law_capture_reaction(
    taker: Side,
    soldier_side: Side,
    alive: bool,
    suppress_target_distance: Option<i64>,
    flag_distance: i64,
    is_leader: bool,
    has_checkpoint: bool,
)
    ensures
        ({
            let r = reaction(
                taker,
                soldier_side,
                alive,
                suppress_target_distance,
                flag_distance,
                is_leader,
                has_checkpoint,
            );
            &&& r.relieve_stress <==> (soldier_side == taker && alive)
            &&& r.cease_fire <==> (soldier_side == taker && alive && exists|d: i64|
                suppress_target_distance == Some(d) && d <= 30)
            &&& r.rotate_scouts <==> (soldier_side == taker && alive && is_leader && flag_distance
                <= 40)
            &&& r.return_to_checkpoint <==> (r.rotate_scouts && has_checkpoint)
        }),
{
    match suppress_target_distance {
        Some(d) => {
            if d <= 30 {
                assert(suppress_target_distance == Some(d) && d <= 30);
            }
        },
        None => {},
    }
}

/// No squad that is banned from a flag is among those that may help take it.
pub proof fn lemma_unbanned_excludes_banned(inside: Seq<u64>, track: FlagTrack, frame: u64)
    ensures
        forall|k: int|
            0 <= k < unbanned(inside, track, frame).len() ==> !banned(
                track,
                #[trigger] unbanned(inside, track, frame)[k],
                frame,
            ),
        forall|k: int|
            0 <= k < inside.len() && !banned(track, #[trigger] inside[k], frame) ==> unbanned(
                inside,
                track,
                frame,
            ).contains(inside[k]),
    decreases inside.len(),
{
    if inside.len() > 0 {
        lemma_unbanned_excludes_banned(inside.drop_last(), track, frame);
        let rest = unbanned(inside.drop_last(), track, frame);
        assert forall|k: int|
            0 <= k < inside.len() && !banned(track, #[trigger] inside[k], frame) implies unbanned(
            inside,
            track,
            frame,
        ).contains(inside[k]) by {
            if k < inside.len() - 1 {
                assert(inside.drop_last()[k] == inside[k]);
                let w = choose|w: int| 0 <= w < rest.len() && rest[w] == inside[k];
                if !banned(track, inside.last(), frame) {
                    assert(rest.push(inside.last())[w] == inside[k]);
                }
            } else {
                assert(rest.push(inside.last())[rest.len() as int] == inside[k]);
            }
        }
    }
}

/// A flag nobody contests keeps its owner, and a flag's owner settles after
/// one tick: a second tick with the same squads inside changes nothing.
pub proof fn law_ownership_settles(current: FlagOwnership, a_inside: bool, b_inside: bool)
    ensures
        ownership_after(current, false, false) == current,
        ownership_after(ownership_after(current, a_inside, b_inside), a_inside, b_inside)
            == ownership_after(current, a_inside, b_inside),
{
}

/// A squad whose hold on a flag ran out is banned from that flag for good:
/// dropping stale bans at any later frame short of [`FOREVER`] keeps the
/// ban, and the squad is never again among those that may help take it.
pub proof fn law_expired_holder_stays_banned(
    track: FlagTrack,
    frame: u64,
    current: FlagOwnership,
    a_inside: Seq<u64>,
    b_inside: Seq<u64>,
    later: u64,
    squads: Seq<u64>,
)
    requires
        flag_tick(track, frame, current, a_inside, b_inside).1.expired_holder is Some,
        later < FOREVER,
    ensures
        ({
            let (after, step) = flag_tick(track, frame, current, a_inside, b_inside);
            let holder = step.expired_holder->0;
            let kept = without_stale_ban(after, later);
            &&& step.ownership == FlagOwnership::Nobody
            &&& kept.ban == Some(Ban { until: FOREVER, squad: holder })
            &&& banned(kept, holder, later)
            &&& !unbanned(squads, kept, later).contains(holder)
        }),
{
    let (after, step) = flag_tick(track, frame, current, a_inside, b_inside);
    let kept = without_stale_ban(after, later);
    lemma_unbanned_excludes_banned(squads, kept, later);
}

/// A ban is only ever replaced or lifted by a tick in which a hold ran out
/// (the new ban falls on the holder, or on [`UNRECORDED_SQUAD`] when the
/// hold had none) or in which a camp took the flag with a squad other than
/// the banned one.
pub proof fn law_ban_lifted_only_by_other_squad(
    track: FlagTrack,
    frame: u64,
    current: FlagOwnership,
    a_inside: Seq<u64>,
    b_inside: Seq<u64>,
)
    ensures
        ({
            let (after, step) = flag_tick(track, frame, current, a_inside, b_inside);
            after.ban != track.ban ==> (step.released || (step.ban_lifted
                && step.taken_by is Some && step.taker is Some && track.ban is Some
                && track.ban->0.squad != step.taker->0))
        }),
{
}

/// A flag keeps a hold record only while one camp alone owns it, and a tick
/// in which a hold runs out leaves the flag to nobody.
pub proof fn law_hold_only_under_one_camp(
    track: FlagTrack,
    frame: u64,
    current: FlagOwnership,
    a_inside: Seq<u64>,
    b_inside: Seq<u64>,
)
    ensures
        ({
            let (after, step) = flag_tick(track, frame, current, a_inside, b_inside);
            &&& after.hold is Some ==> held_by_one_camp(step.ownership)
            &&& step.released ==> step.ownership == FlagOwnership::Nobody && after.hold is None
                && after.ban is Some && after.ban->0.until == FOREVER
            &&& step.expired_holder is Some ==> step.released
        }),
{
}

/// A squad that has held a flag for its camp alone for [`HOLD_LIMIT`]
/// frames loses it: when its camp still owns the flag alone and no other
/// squad of that camp is credited, the flag turns neutral and the squad is
/// banned from it.
pub proof fn law_hold_runs_out(
    track: FlagTrack,
    frame: u64,
    current: FlagOwnership,
    a_inside: Seq<u64>,
    b_inside: Seq<u64>,
    holder: u64,
    since: u64,
)
    requires
        track.hold == Some(Hold { since, squad: Some(holder) }),
        since <= frame,
        frame - since >= HOLD_LIMIT,
        current == FlagOwnership::A,
        unbanned(b_inside, track, frame).len() == 0,
        unbanned(a_inside, track, frame).len() == 0 || unbanned(a_inside, track, frame)[0]
            == holder,
    ensures
        ({
            let (after, step) = flag_tick(track, frame, current, a_inside, b_inside);
            &&& step.ownership == FlagOwnership::Nobody
            &&& step.released
            &&& step.expired_holder == Some(holder)
            &&& after.ban == Some(Ban { until: FOREVER, squad: holder })
        }),
{
}

/// The squads of the camp that owns a flag alone, among those inside it.
pub open spec fn own_camp_inside(current: FlagOwnership, a_inside: Seq<u64>, b_inside: Seq<u64>) -> Seq<u64> {
    if current == FlagOwnership::A {
        a_inside
    } else {
        b_inside
    }
}

/// The squads of the other camp, among those inside a flag.
pub open spec fn other_camp_inside(current: FlagOwnership, a_inside: Seq<u64>, b_inside: Seq<u64>) -> Seq<u64> {
    if current == FlagOwnership::A {
        b_inside
    } else {
        a_inside
    }
}

/// A squad that already holds a flag keeps its timer, for either camp:
/// while its camp alone keeps the flag (no other squad of that camp is
/// credited before it, and the other camp has no squad that may take it
/// inside) and its limit has not been reached, the hold record stays as it
/// was, whatever the squad's id.
pub proof fn law_holder_keeps_its_timer(
    track: FlagTrack,
    frame: u64,
    current: FlagOwnership,
    a_inside: Seq<u64>,
    b_inside: Seq<u64>,
    holder: u64,
    since: u64,
)
    requires
        track.hold == Some(Hold { since, squad: Some(holder) }),
        since <= frame,
        frame - since < 1800,
        current == FlagOwnership::A || current == FlagOwnership::B,
        unbanned(other_camp_inside(current, a_inside, b_inside), track, frame).len() == 0,
        unbanned(own_camp_inside(current, a_inside, b_inside), track, frame).len() == 0 || unbanned(
            own_camp_inside(current, a_inside, b_inside),
            track,
            frame,
        )[0] == holder,
    ensures
        ({
            let (after, step) = flag_tick(track, frame, current, a_inside, b_inside);
            &&& step.ownership == current
            &&& !step.released
            &&& step.expired_holder is None
            &&& after.hold == track.hold
        }),
{
}

/// Another squad of the owning camp restarts the timer, for either camp:
/// when the squad credited is not the one on record, the hold starts again
/// at `frame` under that squad and the flag stays with the camp.
pub proof fn law_new_squad_restarts_the_timer(
    track: FlagTrack,
    frame: u64,
    current: FlagOwnership,
    a_inside: Seq<u64>,
    b_inside: Seq<u64>,
    taker: u64,
)
    requires
        track.hold is Some,
        track.hold->0.squad != Some(taker),
        current == FlagOwnership::A || current == FlagOwnership::B,
        unbanned(other_camp_inside(current, a_inside, b_inside), track, frame).len() == 0,
        unbanned(own_camp_inside(current, a_inside, b_inside), track, frame).len() > 0,
        unbanned(own_camp_inside(current, a_inside, b_inside), track, frame)[0] == taker,
    ensures
        ({
            let (after, step) = flag_tick(track, frame, current, a_inside, b_inside);
            &&& step.ownership == current
            &&& step.taker == Some(taker)
            &&& !step.released
            &&& after.hold == Some(Hold { since: frame, squad: Some(taker) })
        }),
{
}

/// Every hold runs out, for either camp: when the squad on record is still
/// the one credited (or no squad of the owning camp that may take the flag
/// is inside), once [`HOLD_LIMIT`] frames have passed since the hold began
/// the flag turns neutral and a never-ending ban falls on the holder.
pub proof fn law_every_hold_runs_out(
    track: FlagTrack,
    frame: u64,
    current: FlagOwnership,
    a_inside: Seq<u64>,
    b_inside: Seq<u64>,
    since: u64,
)
    requires
        track.hold is Some,
        track.hold->0.since == since,
        since <= frame,
        frame - since >= 1800,
        current == FlagOwnership::A || current == FlagOwnership::B,
        unbanned(other_camp_inside(current, a_inside, b_inside), track, frame).len() == 0,
        unbanned(own_camp_inside(current, a_inside, b_inside), track, frame).len() == 0
            || track.hold->0.squad == Some(
            unbanned(own_camp_inside(current, a_inside, b_inside), track, frame)[0],
        ),
    ensures
        ({
            let (after, step) = flag_tick(track, frame, current, a_inside, b_inside);
            &&& step.ownership == FlagOwnership::Nobody
            &&& step.released
            &&& step.expired_holder == track.hold->0.squad
            &&& after.hold is None
            &&& after.ban == Some(Ban { until: FOREVER, squad: banned_squad(track.hold->0) })
        }),
{
}

} // verus!
