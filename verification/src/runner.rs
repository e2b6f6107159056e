use vstd::prelude::*;

use crate::flags::{
    capture_reaction, fitted, flag_tick, least, reaction, retreat_scan, rotation_due,
    scout_group_key, without_stale_ban, FlagBook, FlagTrack, ScoutTurn, ROTATION_GAP,
};
use crate::flags::ownerships_changed;
use crate::orders::{squad_directive, squad_instructions, SoldierDirective, SquadDirective};
use crate::side::{side_text, FlagOwnership, Side};
use crate::text::{decimal, same_text};

verus! {

/// Stress relieved in each soldier of the camp that takes a flag.
pub const STRESS_RELIEF: u64 = 200;

/// A squad as the flag tick sees it.
pub struct SquadView {
    pub id: u64,
    /// The camp of the squad's leader.
    pub camp: Side,
    pub members: Vec<usize>,
    /// The leader's distance in metres to each flag, by flag index.
    pub leader_distances: Vec<u64>,
}

/// A soldier as the flag tick sees it.
pub struct SoldierView {
    pub id: usize,
    pub squad: u64,
    pub side: Side,
    pub alive: bool,
    pub is_leader: bool,
    /// Whether the soldier's squad has a checkpoint to return to.
    pub has_checkpoint: bool,
    /// For each flag, the distance in metres from the flag to the point the
    /// soldier is ordered to suppress, when it is suppressing fire.
    pub suppress_distances: Vec<Option<i64>>,
    /// The soldier's distance in metres to each flag.
    pub flag_distances: Vec<i64>,
}

/// A company whose scouts rotate.
pub struct CompanyView {
    pub side: Side,
    pub squads: Vec<u64>,
    pub scout_squad: Option<u64>,
}

/// The squads of each camp inside one flag that may take it, in the
/// order the world lists them.
pub struct FlagScene {
    pub a_inside: Vec<u64>,
    pub b_inside: Vec<u64>,
}

/// What the world tells the flag tick.
pub struct BattleScene {
    pub frame: u64,
    pub update_every: u64,
    /// The owner of each flag before the tick, by flag index.
    pub ownerships: Vec<FlagOwnership>,
    pub flags: Vec<FlagScene>,
    pub squads: Vec<SquadView>,
    pub soldiers: Vec<SoldierView>,
    pub companies: Vec<CompanyView>,
}

/// What the flag tick asks of the world, in the order it asks it.
#[derive(Clone, Copy, Debug, PartialEq, Eq, Structural)]
pub enum FlagCommand {
    /// The flag's hold ran out and the flag turned neutral; `holder` is the
    /// squad on record, if any.
    Released { flag: usize, holder: Option<u64> },
    /// The squad heads for `flag`: a path to it is needed by the member
    /// instructions that follow with `toward == Some(flag)`.
    Retreat { squad: u64, flag: usize },
    /// An instruction to one soldier; `toward` names the flag whose path a
    /// rush follows.
    Soldier { soldier: usize, directive: SoldierDirective, toward: Option<usize> },
    /// The flag's ban was lifted because another squad took it.
    BanLifted { flag: usize },
    RelieveStress { soldier: usize, amount: u64 },
    /// The scouts of company `company` (its index in the scene) rotated.
    ScoutsRotated { company: usize },
    /// The soldier leads its squad back to the squad's checkpoint.
    ReturnToCheckpoint { soldier: usize },
}

/// The scout rotations kept between ticks: the key of each record, its
/// rotation, and the squads that completed a rotation, as pairs of a
/// record index and a squad.
pub type ScoutState = (Seq<Seq<char>>, Seq<ScoutTurn>, Seq<(usize, u64)>);

/// The scout rotation records.
pub struct ScoutBook {
    keys: Vec<String>,
    turns: Vec<ScoutTurn>,
    history: Vec<(usize, u64)>,
}

/// The flag records and scout rotations kept between ticks.
pub struct FlagRunner {
    book: FlagBook,
    scouts: ScoutBook,
}

/// Whether the scene gives every per-flag list for each of its flags.
pub open spec fn scene_fits(scene: BattleScene) -> bool {
    let n = scene.ownerships@.len();
    &&& scene.flags@.len() == n
    &&& forall|k: int|
        0 <= k < scene.squads@.len() ==> #[trigger] scene.squads@[k].leader_distances@.len() == n
    &&& forall|k: int|
        0 <= k < scene.soldiers@.len() ==> #[trigger] scene.soldiers@[k].suppress_distances@.len()
            == n && scene.soldiers@[k].flag_distances@.len() == n
}

/// Whether the record under `key` is due to rotate at `frame` but has
/// already counted the largest number of rotations.
pub open spec fn rotation_fault(st: ScoutState, key: Seq<char>, frame: u64) -> bool {
    let i = scout_index(st.0, key);
    i >= 0 && rotation_due(st.1[i], frame) && st.1[i].turn == u64::MAX
}

/// The index of the first record with key `key`, or -1.
pub open spec fn scout_index(keys: Seq<Seq<char>>, key: Seq<char>) -> int
    decreases keys.len(),
{
    if keys.len() == 0 {
        -1
    } else {
        let i = scout_index(keys.drop_last(), key);
        if i >= 0 {
            i
        } else if keys.last() == key {
            keys.len() - 1
        } else {
            -1
        }
    }
}

/// `history` with `entry` added unless it is there already.
pub open spec fn with_entry(history: Seq<(usize, u64)>, entry: (usize, u64)) -> Seq<(usize, u64)> {
    if history.contains(entry) {
        history
    } else {
        history.push(entry)
    }
}

/// The scout records after the company recorded under `key` tries to
/// rotate at `frame` on behalf of `squad` (a record is opened if there is
/// none), and whether it rotated.
pub open spec fn rotate(st: ScoutState, key: Seq<char>, squad: u64, frame: u64) -> (ScoutState, bool) {
    let i = scout_index(st.0, key);
    let keys = if i >= 0 {
        st.0
    } else {
        st.0.push(key)
    };
    let turns = if i >= 0 {
        st.1
    } else {
        st.1.push(ScoutTurn { turn: 0, last_frame: 0 })
    };
    let j = if i >= 0 {
        i
    } else {
        st.0.len() as int
    };
    let t = turns[j];
    if rotation_due(t, frame) {
        (
            (
                keys,
                turns.update(j, ScoutTurn { turn: (t.turn + 1) as u64, last_frame: frame }),
                with_entry(st.2, (j as usize, squad)),
            ),
            true,
        )
    } else {
        ((keys, turns, st.2), false)
    }
}

/// The key of a company's scout record; see `scout_group_key`.
pub open spec fn group_key(c: CompanyView) -> Seq<char> {
    side_text(c.side) + "-group-"@ + decimal(least(c.squads@) as nat)
}

/// The rotations of the first `n` companies when a leader of `squad`
/// takes a flag: each company whose scouts are that squad rotates when due.
/// The last component tells whether such a company could not: it has no
/// squads to key its record by, or its record cannot count one more
/// rotation.
pub open spec fn company_rotations(
    st: ScoutState,
    companies: Seq<CompanyView>,
    squad: u64,
    frame: u64,
    n: int,
) -> (ScoutState, Seq<FlagCommand>, bool)
    decreases n,
{
    if n <= 0 {
        (st, Seq::empty(), false)
    } else {
        let (st1, c1, e1) = company_rotations(st, companies, squad, frame, n - 1);
        let comp = companies[n - 1];
        if comp.scout_squad == Some(squad) {
            if comp.squads@.len() == 0 || rotation_fault(st1, group_key(comp), frame) {
                (st1, c1, true)
            } else {
                let (st2, rotated) = rotate(st1, group_key(comp), squad, frame);
                (
                    st2,
                    if rotated {
                        c1.push(FlagCommand::ScoutsRotated { company: (n - 1) as usize })
                    } else {
                        c1
                    },
                    e1,
                )
            }
        } else {
            (st1, c1, e1)
        }
    }
}

/// The commands for a list of soldier instructions.
pub open spec fn commands_of(instr: Seq<(usize, SoldierDirective)>, toward: Option<usize>) -> Seq<
    FlagCommand,
>
    decreases instr.len(),
{
    if instr.len() == 0 {
        Seq::empty()
    } else {
        commands_of(instr.drop_last(), toward).push(
            FlagCommand::Soldier {
                soldier: instr.last().0,
                directive: instr.last().1,
                toward,
            },
        )
    }
}

/// The index of the first squad with id `id`, or -1.
pub open spec fn squad_index(squads: Seq<SquadView>, id: u64) -> int
    decreases squads.len(),
{
    if squads.len() == 0 {
        -1
    } else {
        let i = squad_index(squads.drop_last(), id);
        if i >= 0 {
            i
        } else if squads.last().id == id {
            squads.len() - 1
        } else {
            -1
        }
    }
}

/// What a squad whose hold ran out is told, given the flag records after
/// the tick: to rush to the flag [`retreat_scan`] picks, or, when there is
/// none, to stand down. A squad the scene does not list is told nothing.
pub open spec fn retreat_commands(tracks: Seq<FlagTrack>, scene: BattleScene, squad: u64) -> Seq<
    FlagCommand,
> {
    let k = squad_index(scene.squads@, squad);
    if k < 0 {
        Seq::empty()
    } else {
        let sv = scene.squads@[k];
        match retreat_scan(
            tracks,
            squad,
            sv.camp,
            scene.ownerships@,
            sv.leader_distances@,
            tracks.len() as int,
        ) {
            Some(t) => seq![FlagCommand::Retreat { squad, flag: t }] + commands_of(
                squad_instructions(sv.members@, SquadDirective::Rush),
                Some(t),
            ),
            None => commands_of(squad_instructions(sv.members@, SquadDirective::StandDown), None),
        }
    }
}

/// What one soldier is told when camp `taker` takes flag `flag`, the
/// scout records after it, and whether a rotation could not be made.
pub open spec fn soldier_commands(
    st: ScoutState,
    scene: BattleScene,
    flag: int,
    taker: Side,
    s: SoldierView,
) -> (ScoutState, Seq<FlagCommand>, bool) {
    let r = reaction(
        taker,
        s.side,
        s.alive,
        s.suppress_distances@[flag],
        s.flag_distances@[flag],
        s.is_leader,
        s.has_checkpoint,
    );
    let stress = if r.relieve_stress {
        seq![FlagCommand::RelieveStress { soldier: s.id, amount: STRESS_RELIEF }]
    } else {
        Seq::empty()
    };
    let cease = if r.cease_fire {
        seq![
            FlagCommand::Soldier { soldier: s.id, directive: SoldierDirective::OrderIdle, toward: None },
            FlagCommand::Soldier {
                soldier: s.id,
                directive: SoldierDirective::BehaviorIdleCrouched,
                toward: None,
            },
        ]
    } else {
        Seq::empty()
    };
    let (st1, rot, fault) = if r.rotate_scouts {
        company_rotations(st, scene.companies@, s.squad, scene.frame, scene.companies@.len() as int)
    } else {
        (st, Seq::empty(), false)
    };
    let back = if r.return_to_checkpoint {
        seq![FlagCommand::ReturnToCheckpoint { soldier: s.id }]
    } else {
        Seq::empty()
    };
    (st1, stress + cease + rot + back, fault)
}

/// What the first `n` soldiers are told when camp `taker` takes flag `flag`.
pub open spec fn soldier_pass(st: ScoutState, scene: BattleScene, flag: int, taker: Side, n: int) -> (
    ScoutState,
    Seq<FlagCommand>,
    bool,
)
    decreases n,
{
    if n <= 0 {
        (st, Seq::empty(), false)
    } else {
        let (st1, c1, e1) = soldier_pass(st, scene, flag, taker, n - 1);
        let (st2, c2, e2) = soldier_commands(st1, scene, flag, taker, scene.soldiers@[n - 1]);
        (st2, c1 + c2, e1 || e2)
    }
}

/// One flag's part of a tick: its new record, the scout records, its
/// commands (the release, what the released squad is told, the lifted
/// ban, then every soldier's reaction to the capture), its new owner, and
/// whether a scout rotation could not be made.
pub open spec fn flag_pass(tracks: Seq<FlagTrack>, st: ScoutState, scene: BattleScene, f: int) -> (
    Seq<FlagTrack>,
    ScoutState,
    Seq<FlagCommand>,
    FlagOwnership,
    bool,
) {
    let (track, step) = flag_tick(
        tracks[f],
        scene.frame,
        scene.ownerships@[f],
        scene.flags@[f].a_inside@,
        scene.flags@[f].b_inside@,
    );
    let tracks1 = tracks.update(f, track);
    let released = if step.released {
        seq![FlagCommand::Released { flag: f as usize, holder: step.expired_holder }]
    } else {
        Seq::empty()
    };
    let retreat = match step.expired_holder {
        Some(sq) => retreat_commands(tracks1, scene, sq),
        None => Seq::empty(),
    };
    let lifted = if step.ban_lifted {
        seq![FlagCommand::BanLifted { flag: f as usize }]
    } else {
        Seq::empty()
    };
    let (st1, reactions, fault) = match step.taken_by {
        Some(t) => soldier_pass(st, scene, f, t, scene.soldiers@.len() as int),
        None => (st, Seq::empty(), false),
    };
    (tracks1, st1, released + retreat + lifted + reactions, step.ownership, fault)
}

/// The first `n` flags' part of a tick, flag after flag.
pub open spec fn round(tracks: Seq<FlagTrack>, st: ScoutState, scene: BattleScene, n: int) -> (
    Seq<FlagTrack>,
    ScoutState,
    Seq<FlagCommand>,
    Seq<FlagOwnership>,
    bool,
)
    decreases n,
{
    if n <= 0 {
        (tracks, st, Seq::empty(), Seq::empty(), false)
    } else {
        let r = round(tracks, st, scene, n - 1);
        let p = flag_pass(r.0, r.1, scene, n - 1);
        (p.0, p.1, r.2 + p.2, r.3.push(p.3), r.4 || p.4)
    }
}

/// Once a rotation failed among the first `i` companies, it has failed
/// among the first `n`.
proof fn lemma_company_fault_stays(
    st: ScoutState,
    companies: Seq<CompanyView>,
    squad: u64,
    frame: u64,
    i: int,
    n: int,
)
    requires
        0 <= i <= n,
        company_rotations(st, companies, squad, frame, i).2,
    ensures
        company_rotations(st, companies, squad, frame, n).2,
    decreases n,
{
    if n > i {
        lemma_company_fault_stays(st, companies, squad, frame, i, n - 1);
    }
}

/// Once a rotation failed among the first `i` soldiers, it has failed
/// among the first `n`.
proof fn lemma_soldier_fault_stays(
    st: ScoutState,
    scene: BattleScene,
    flag: int,
    taker: Side,
    i: int,
    n: int,
)
    requires
        0 <= i <= n,
        soldier_pass(st, scene, flag, taker, i).2,
    ensures
        soldier_pass(st, scene, flag, taker, n).2,
    decreases n,
{
    if n > i {
        lemma_soldier_fault_stays(st, scene, flag, taker, i, n - 1);
    }
}

/// Once a rotation failed on the first `i` flags, it has failed on the
/// first `n`.
proof fn lemma_round_fault_stays(tracks: Seq<FlagTrack>, st: ScoutState, scene: BattleScene, i: int, n: int)
    requires
        0 <= i <= n,
        round(tracks, st, scene, i).4,
    ensures
        round(tracks, st, scene, n).4,
    decreases n,
{
    if n > i {
        lemma_round_fault_stays(tracks, st, scene, i, n - 1);
    }
}

/// The flag records a tick starts from: one per flag of the scene, with
/// the bans that ran out by `frame` dropped.
pub open spec fn tick_start(tracks: Seq<FlagTrack>, n: nat, frame: u64) -> Seq<FlagTrack> {
    Seq::new(n, |i: int| without_stale_ban(fitted(tracks, n)[i], frame))
}

/// Whether `history` holds `e`.
fn history_has(history: &Vec<(usize, u64)>, e: (usize, u64)) -> (b: bool)
    ensures
        b == history@.contains(e),
{
    let mut k: usize = 0;
    while k < history.len()
        invariant
            k <= history@.len(),
            forall|w: int| 0 <= w < k ==> history@[w] != e,
        decreases history@.len() - k,
    {
        if history[k].0 == e.0 && history[k].1 == e.1 {
            assert(history@[k as int] == e);
            return true;
        }
        k = k + 1;
    }
    false
}

proof fn lemma_with_entry(history: Seq<(usize, u64)>, entry: (usize, u64), present: bool)
    requires
        present == history.contains(entry),
    ensures
        present ==> with_entry(history, entry) == history,
        !present ==> with_entry(history, entry) == history.push(entry),
{
}

impl ScoutBook {
    /// The records: keys, rotations and the squads that completed one.
    pub closed spec fn view(&self) -> ScoutState {
        (self.keys@.map_values(|k: String| k@), self.turns@, self.history@)
    }

    /// Whether there is one rotation per key.
    pub closed spec fn well_formed(&self) -> bool {
        self.keys@.len() == self.turns@.len()
    }

    /// No records.
    pub fn new() -> (b: ScoutBook)
        ensures
            b.well_formed(),
            b.view() == (Seq::<Seq<char>>::empty(), Seq::<ScoutTurn>::empty(), Seq::<(usize, u64)>::empty()),
    {
        let b = ScoutBook { keys: Vec::new(), turns: Vec::new(), history: Vec::new() };
        assert(b.view().0 =~= Seq::<Seq<char>>::empty());
        b
    }

    /// The rotation recorded under `key`, if any.
    pub fn turn_of(&self, key: &String) -> (t: Option<ScoutTurn>)
        requires
            self.well_formed(),
        ensures
            ({
                let i = scout_index(self.view().0, key@);
                &&& i < 0 ==> t is None
                &&& i >= 0 ==> t == Some(self.view().1[i])
            }),
    {
        let i = self.find(key);
        if i < self.keys.len() {
            Some(self.turns[i])
        } else {
            None
        }
    }

    fn find(&self, key: &String) -> (i: usize)
        requires
            self.well_formed(),
        ensures
            i <= self.keys@.len(),
            i == self.keys@.len() ==> scout_index(self.view().0, key@) == -1,
            i < self.keys@.len() ==> scout_index(self.view().0, key@) == i as int,
            scout_index(self.view().0, key@) < self.keys@.len(),
    {
        let ghost kv = self.view().0;
        let n = self.keys.len();
        let mut idx: usize = n;
        let mut i: usize = 0;
        while i < n
            invariant
                n == self.keys@.len(),
                kv == self.view().0,
                kv.len() == n,
                i <= n,
                idx == n || idx < i,
                idx == n ==> scout_index(kv.subrange(0, i as int), key@) == -1,
                idx < n ==> scout_index(kv.subrange(0, i as int), key@) == idx as int,
            decreases n - i,
        {
            proof {
                assert(kv.subrange(0, i + 1).drop_last() =~= kv.subrange(0, i as int));
                assert(kv[i as int] == self.keys@[i as int]@);
            }
            if idx == n {
                if same_text(self.keys[i].as_str(), key.as_str()) {
                    idx = i;
                }
            }
            i = i + 1;
        }
        assert(kv.subrange(0, n as int) =~= kv);
        idx
    }

    /// The company recorded under `key` tries to rotate at `frame` on
    /// behalf of `squad`, as [`rotate`] states; `None`, with nothing
    /// changed, when its record cannot count one more rotation.
    fn rotate(&mut self, key: String, squad: u64, frame: u64) -> (rotated: Option<bool>)
        requires
            old(self).well_formed(),
        ensures
            final(self).well_formed(),
            rotation_fault(old(self).view(), key@, frame) ==> rotated is None && final(self).view()
                == old(self).view(),
            !rotation_fault(old(self).view(), key@, frame) ==> rotated is Some && (
            final(self).view(),
            rotated->0,
            ) == rotate(old(self).view(), key@, squad, frame),
    {
        let ghost st = self.view();
        let idx = self.find(&key);
        if idx < self.keys.len() {
            let t = self.turns[idx];
            assert(st.1[idx as int] == t);
            if frame > t.last_frame && frame - t.last_frame > ROTATION_GAP && t.turn == u64::MAX {
                return None;
            }
        }
        if idx == self.keys.len() {
            let ghost k = key@;
            self.keys.push(key);
            self.turns.push(ScoutTurn::new());
            assert(self.view().0 =~= st.0.push(k));
        }
        let mut t = self.turns[idx];
        proof {
            if idx < st.1.len() {
                assert(st.1[idx as int] == t);
            }
        }
        let rotated = t.advance(frame);
        if rotated {
            self.turns.set(idx, t);
            let present = history_has(&self.history, (idx, squad));
            proof {
                lemma_with_entry(st.2, (idx, squad), present);
            }
            if !present {
                self.history.push((idx, squad));
            }
        }
        Some(rotated)
    }
}

/// Appends the commands for a squad directive to each member.
fn push_member_commands(
    out: &mut Vec<FlagCommand>,
    members: &Vec<usize>,
    d: SquadDirective,
    toward: Option<usize>,
)
    ensures
        final(out)@ == old(out)@ + commands_of(squad_instructions(members@, d), toward),
{
    let instr = squad_directive(members, d);
    let mut i: usize = 0;
    while i < instr.len()
        invariant
            i <= instr@.len(),
            instr@ == squad_instructions(members@, d),
            out@ == old(out)@ + commands_of(instr@.subrange(0, i as int), toward),
        decreases instr@.len() - i,
    {
        let (soldier, directive) = instr[i];
        out.push(FlagCommand::Soldier { soldier, directive, toward });
        proof {
            let next = instr@.subrange(0, i + 1);
            assert(next.drop_last() =~= instr@.subrange(0, i as int));
            assert(out@ =~= old(out)@ + commands_of(next, toward));
        }
        i = i + 1;
    }
    assert(instr@.subrange(0, instr@.len() as int) =~= instr@);
}

/// Appends what a squad whose hold ran out is told; see [`retreat_commands`].
fn push_retreat(out: &mut Vec<FlagCommand>, book: &FlagBook, scene: &BattleScene, squad: u64)
    requires
        scene_fits(*scene),
        book.view().len() == scene.ownerships@.len(),
    ensures
        final(out)@ == old(out)@ + retreat_commands(book.view(), *scene, squad),
{
    let ghost sv = scene.squads@;
    let n = scene.squads.len();
    let mut k: usize = n;
    let mut i: usize = 0;
    while i < n
        invariant
            n == sv.len(),
            sv == scene.squads@,
            i <= n,
            k == n || k < i,
            k == n ==> squad_index(sv.subrange(0, i as int), squad) == -1,
            k < n ==> squad_index(sv.subrange(0, i as int), squad) == k as int,
        decreases n - i,
    {
        proof {
            assert(sv.subrange(0, i + 1).drop_last() =~= sv.subrange(0, i as int));
        }
        if k == n && scene.squads[i].id == squad {
            k = i;
        }
        i = i + 1;
    }
    assert(sv.subrange(0, n as int) =~= sv);
    if k == n {
        assert(out@ =~= old(out)@ + retreat_commands(book.view(), *scene, squad));
        return ;
    }
    let s = &scene.squads[k];
    let target = book.retreat_target(squad, s.camp, &scene.ownerships, &s.leader_distances);
    match target {
        Some(t) => {
            out.push(FlagCommand::Retreat { squad, flag: t });
            let ghost mid = out@;
            push_member_commands(out, &s.members, SquadDirective::Rush, Some(t));
            assert(out@ =~= old(out)@ + retreat_commands(book.view(), *scene, squad));
        },
        None => {
            push_member_commands(out, &s.members, SquadDirective::StandDown, None);
        },
    }
}

/// Appends the rotations of every company whose scouts are `squad`; see
/// [`company_rotations`]. Returns whether a rotation could not be made, in
/// which case it stops there.
fn push_rotations(
    out: &mut Vec<FlagCommand>,
    scouts: &mut ScoutBook,
    companies: &Vec<CompanyView>,
    squad: u64,
    frame: u64,
) -> (fault: bool)
    requires
        old(scouts).well_formed(),
    ensures
        final(scouts).well_formed(),
        ({
            let (st, c, e) = company_rotations(
                old(scouts).view(),
                companies@,
                squad,
                frame,
                companies@.len() as int,
            );
            &&& fault == e
            &&& !fault ==> final(scouts).view() == st && final(out)@ == old(out)@ + c
        }),
{
    let n = companies.len();
    let mut i: usize = 0;
    while i < n
        invariant
            n == companies@.len(),
            i <= n,
            scouts.well_formed(),
            ({
                let (st, c, e) = company_rotations(old(scouts).view(), companies@, squad, frame, i as int);
                &&& !e
                &&& scouts.view() == st
                &&& out@ == old(out)@ + c
            }),
        decreases n - i,
    {
        let c = &companies[i];
        if c.scout_squad == Some(squad) {
            if c.squads.len() == 0 {
                proof {
                    lemma_company_fault_stays(old(scouts).view(), companies@, squad, frame, i + 1, n as int);
                }
                return true;
            }
            let key = scout_group_key(c.side, &c.squads);
            match scouts.rotate(key, squad, frame) {
                None => {
                    proof {
                        lemma_company_fault_stays(old(scouts).view(), companies@, squad, frame, i + 1, n as int);
                    }
                    return true;
                },
                Some(rotated) => {
                    if rotated {
                        out.push(FlagCommand::ScoutsRotated { company: i });
                    }
                },
            }
        }
        i = i + 1;
    }
    false
}

/// Appends every soldier's reaction when camp `taker` takes flag `flag`;
/// see [`soldier_pass`]. Returns whether a scout rotation could not be
/// made, in which case it stops there.
fn push_reactions(
    out: &mut Vec<FlagCommand>,
    scouts: &mut ScoutBook,
    scene: &BattleScene,
    flag: usize,
    taker: Side,
) -> (fault: bool)
    requires
        old(scouts).well_formed(),
        scene_fits(*scene),
        flag < scene.ownerships@.len(),
    ensures
        final(scouts).well_formed(),
        ({
            let (st, c, e) = soldier_pass(
                old(scouts).view(),
                *scene,
                flag as int,
                taker,
                scene.soldiers@.len() as int,
            );
            &&& fault == e
            &&& !fault ==> final(scouts).view() == st && final(out)@ == old(out)@ + c
        }),
{
    let n = scene.soldiers.len();
    let mut i: usize = 0;
    while i < n
        invariant
            n == scene.soldiers@.len(),
            i <= n,
            scene_fits(*scene),
            flag < scene.ownerships@.len(),
            scouts.well_formed(),
            ({
                let (st, c, e) = soldier_pass(old(scouts).view(), *scene, flag as int, taker, i as int);
                &&& !e
                &&& scouts.view() == st
                &&& out@ == old(out)@ + c
            }),
        decreases n - i,
    {
        let s = &scene.soldiers[i];
        assert(s.suppress_distances@.len() == scene.ownerships@.len());
        let ghost before = out@;
        let ghost st0 = scouts.view();
        let r = capture_reaction(
            taker,
            s.side,
            s.alive,
            s.suppress_distances[flag],
            s.flag_distances[flag],
            s.is_leader,
            s.has_checkpoint,
        );
        if r.relieve_stress {
            out.push(FlagCommand::RelieveStress { soldier: s.id, amount: STRESS_RELIEF });
        }
        if r.cease_fire {
            out.push(
                FlagCommand::Soldier {
                    soldier: s.id,
                    directive: SoldierDirective::OrderIdle,
                    toward: None,
                },
            );
            out.push(
                FlagCommand::Soldier {
                    soldier: s.id,
                    directive: SoldierDirective::BehaviorIdleCrouched,
                    toward: None,
                },
            );
        }
        if r.rotate_scouts {
            let fault = push_rotations(out, scouts, &scene.companies, s.squad, scene.frame);
            if fault {
                proof {
                    lemma_soldier_fault_stays(old(scouts).view(), *scene, flag as int, taker, i + 1, n as int);
                }
                return true;
            }
        }
        if r.return_to_checkpoint {
            out.push(FlagCommand::ReturnToCheckpoint { soldier: s.id });
        }
        proof {
            let (st2, c2, e2) = soldier_commands(st0, *scene, flag as int, taker, scene.soldiers@[i as int]);
            assert(out@ =~= before + c2);
            assert(scouts.view() == st2);
        }
        i = i + 1;
    }
    false
}

/// A tick that could not be completed: a company whose scouts had to
/// rotate has no squads, or its rotation record cannot count one more
/// rotation.
#[derive(Clone, Copy, Debug, PartialEq, Eq, Structural)]
pub struct ScoutRotationFault;

impl FlagRunner {
    /// The record of each flag.
    pub closed spec fn flags_view(&self) -> Seq<FlagTrack> {
        self.book.view()
    }

    /// The scout rotation records.
    pub closed spec fn scouts_view(&self) -> ScoutState {
        self.scouts.view()
    }

    /// Whether the scout records hold one rotation per key.
    pub closed spec fn well_formed(&self) -> bool {
        self.scouts.well_formed()
    }

    /// A runner for `flag_count` flags, none held or banned, with no scout
    /// records.
    pub fn new(flag_count: usize) -> (r: FlagRunner)
        ensures
            r.well_formed(),
            r.flags_view() == Seq::new(flag_count as nat, |i: int| FlagTrack { hold: None, ban: None }),
            r.scouts_view() == (Seq::<Seq<char>>::empty(), Seq::<ScoutTurn>::empty(), Seq::<(usize, u64)>::empty()),
    {
        FlagRunner { book: FlagBook::new(flag_count), scouts: ScoutBook::new() }
    }

    /// The record of flag `flag`.
    pub fn track(&self, flag: usize) -> (t: FlagTrack)
        requires
            flag < self.flags_view().len(),
        ensures
            t == self.flags_view()[flag as int],
    {
        self.book.track(flag)
    }

    /// The scout rotation recorded under `key`, if any.
    pub fn scout_turn(&self, key: &String) -> (t: Option<ScoutTurn>)
        requires
            self.well_formed(),
        ensures
            ({
                let i = scout_index(self.scouts_view().0, key@);
                &&& i < 0 ==> t is None
                &&& i >= 0 ==> t == Some(self.scouts_view().1[i])
            }),
    {
        self.scouts.turn_of(key)
    }

    /// One flag tick. On frames that are not a multiple of the update
    /// period nothing happens. Otherwise the book takes one record per flag
    /// of the scene, bans that ran out are dropped, and the flags are ticked
    /// in index order as [`round`] states; the commands come back in the
    /// order they are to be carried out, and the new owners only when they
    /// differ from the old ones, to be announced after the commands. When a
    /// scout rotation cannot be made ([`company_rotations`]), the tick stops
    /// with [`ScoutRotationFault`].
    pub fn tick(&mut self, scene: &BattleScene) -> (out: Result<
        (Vec<FlagCommand>, Option<Vec<FlagOwnership>>),
        ScoutRotationFault,
    >)
        requires
            old(self).well_formed(),
            scene.update_every > 0,
            scene.frame % scene.update_every == 0 ==> scene_fits(*scene),
        ensures
            final(self).well_formed(),
            scene.frame % scene.update_every != 0 ==> {
                &&& final(self).flags_view() == old(self).flags_view()
                &&& final(self).scouts_view() == old(self).scouts_view()
                &&& out matches Ok((c, o)) && c@ == Seq::<FlagCommand>::empty() && o is None
            },
            scene.frame % scene.update_every == 0 ==> {
                let n = scene.ownerships@.len();
                let r = round(
                    tick_start(old(self).flags_view(), n, scene.frame),
                    old(self).scouts_view(),
                    *scene,
                    n as int,
                );
                &&& r.4 <==> out is Err
                &&& !r.4 ==> {
                    &&& final(self).flags_view() == r.0
                    &&& final(self).scouts_view() == r.1
                    &&& out matches Ok((c, o)) && c@ == r.2 && match o {
                        Some(v) => v@ == r.3 && r.3 != scene.ownerships@,
                        None => r.3 == scene.ownerships@,
                    }
                }
            },
    {
        if scene.frame % scene.update_every != 0 {
            return Ok((Vec::new(), None));
        }
        let n = scene.ownerships.len();
        let frame = scene.frame;
        self.book.fit(n);
        self.book.drop_stale_bans(frame);
        let ghost start = tick_start(old(self).flags_view(), n as nat, frame);
        assert(self.book.view() =~= start);
        let mut cmds: Vec<FlagCommand> = Vec::new();
        let mut owners: Vec<FlagOwnership> = Vec::new();
        let mut f: usize = 0;
        while f < n
            invariant
                n == scene.ownerships@.len(),
                frame == scene.frame,
                scene.update_every > 0,
                scene.frame % scene.update_every == 0,
                start == tick_start(old(self).flags_view(), n as nat, frame),
                scene_fits(*scene),
                f <= n,
                self.book.view().len() == n,
                self.scouts.well_formed(),
                ({
                    let r = round(start, old(self).scouts_view(), *scene, f as int);
                    &&& !r.4
                    &&& self.book.view() == r.0
                    &&& self.scouts.view() == r.1
                    &&& cmds@ == r.2
                    &&& owners@ == r.3
                }),
            decreases n - f,
        {
            let ghost before = cmds@;
            let ghost st0 = self.scouts.view();
            let ghost tracks0 = self.book.view();
            let fs = &scene.flags[f];
            let step = self.book.tick_flag(f, frame, scene.ownerships[f], &fs.a_inside, &fs.b_inside);
            if step.released {
                cmds.push(FlagCommand::Released { flag: f, holder: step.expired_holder });
            }
            match step.expired_holder {
                Some(sq) => {
                    push_retreat(&mut cmds, &self.book, scene, sq);
                },
                None => {},
            }
            if step.ban_lifted {
                cmds.push(FlagCommand::BanLifted { flag: f });
            }
            match step.taken_by {
                Some(t) => {
                    let fault = push_reactions(&mut cmds, &mut self.scouts, scene, f, t);
                    if fault {
                        proof {
                            lemma_round_fault_stays(start, old(self).scouts_view(), *scene, f + 1, n as int);
                        }
                        return Err(ScoutRotationFault);
                    }
                },
                None => {},
            }
            owners.push(step.ownership);
            proof {
                let p = flag_pass(tracks0, st0, *scene, f as int);
                assert(cmds@ =~= before + p.2);
                assert(self.book.view() == p.0);
            }
            f = f + 1;
        }
        let changed = ownerships_changed(&scene.ownerships, &owners);
        if changed {
            Ok((cmds, Some(owners)))
        } else {
            Ok((cmds, None))
        }
    }
}

} // verus!
