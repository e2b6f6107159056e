use std::collections::HashMap;

use vstd::prelude::*;

use crate::canvas::{phase_canvas, phase_canvas_spec, nodes_are, edges_are, CanvasGraph};
use crate::naming::{
    environment_label, environment_text, format_squad, format_squad_link, squad_link, squad_name,
};
use crate::side::{side_label, side_text, Side};
use crate::text::{decimal, join_strings, join_texts, push_decimal, sort_strings, sort_texts, views};

verus! {

broadcast use vstd::std_specs::hash::group_hash_axioms;

/// The kinds of event drawn on the battle map of a phase.
#[derive(Clone, Copy, Debug, PartialEq, Eq, Structural)]
pub enum EventKind {
    Movement,
    Engagement,
    Death,
}

/// The name of an event kind, as used in node ids.
pub open spec fn event_kind_text(kind: EventKind) -> Seq<char> {
    match kind {
        EventKind::Movement => "Movement"@,
        EventKind::Engagement => "Engagement"@,
        EventKind::Death => "Death"@,
    }
}

/// The name of an event kind.
pub fn event_kind_label(kind: EventKind) -> (label: &'static str)
    ensures
        label@ == event_kind_text(kind),
{
    match kind {
        EventKind::Movement => "Movement",
        EventKind::Engagement => "Engagement",
        EventKind::Death => "Death",
    }
}

/// An event to be drawn on the battle map.
#[derive(Debug)]
pub struct CanvasEventLog {
    pub frame: u64,
    pub side: Side,
    pub squad_id: usize,
    pub event_type: EventKind,
    pub sector: String,
    pub desc: String,
    pub target_squad: Option<usize>,
}

/// A squad's call for support. The threat level is held as the text it is
/// printed as (two decimals); the world position of the target as the text
/// of its two coordinates (`x, y`), which the journal keeps but never prints.
#[derive(Debug)]
pub struct SupportRequestLog {
    pub frame: u64,
    pub requester_squad: usize,
    pub threat_level_text: String,
    pub urgency: String,
    pub target_squad: Option<usize>,
    pub target_position_text: String,
}

/// A squad sent to support another. The position it moves to is held as
/// the text it is printed as (`x, y`, no decimals).
#[derive(Debug)]
pub struct SupportAssignmentLog {
    pub frame: u64,
    pub requester_squad: usize,
    pub supporter_squad: usize,
    pub status: String,
    pub safe_position_text: String,
}

/// A resupply of a squad. Threat levels are held as the texts they are
/// printed as (two decimals), the reduction being before minus after.
#[derive(Debug)]
pub struct SupportSupplyLog {
    pub frame: u64,
    pub squad: usize,
    pub ammo_amount: usize,
    pub stress_reduction: u32,
    pub threat_before_text: String,
    pub threat_after_text: String,
    pub threat_reduction_text: String,
}

/// The movement and engagement lines of one squad in the current phase.
#[derive(Debug)]
pub struct SquadLog {
    pub squad: usize,
    pub movements: Vec<String>,
    pub engagements: Vec<String>,
}

/// The state of a battle journal.
pub struct JournalView {
    /// The phase being recorded, counted from 1.
    pub phase: usize,
    /// The frame at which the current phase started.
    pub start_frame: u64,
    /// The last order issued, if any.
    pub current_order: Option<usize>,
    /// How many orders were issued.
    pub order_counter: usize,
    /// Movement and engagement lines of the phase, by squad, in increasing squad order.
    pub squad_logs: Seq<SquadLog>,
    /// The camp of each squad seen so far.
    pub squad_sides: Map<usize, Side>,
    /// Death lines of the phase, per camp.
    pub deaths_a: Seq<String>,
    pub deaths_b: Seq<String>,
    /// Rounds fired in the phase, per camp.
    pub ammo_a: usize,
    pub ammo_b: usize,
    /// Deaths and rounds over the whole battle, per camp.
    pub total_deaths_a: usize,
    pub total_deaths_b: usize,
    pub total_ammo_a: usize,
    pub total_ammo_b: usize,
    /// The squads that have a page, in the order their pages were made.
    pub squad_pages: Seq<(usize, Side)>,
    /// Support traffic of the phase.
    pub requests: Seq<SupportRequestLog>,
    pub assignments: Seq<SupportAssignmentLog>,
    pub supplies: Seq<SupportSupplyLog>,
    /// Events for the battle map (never cleared).
    pub events: Seq<CanvasEventLog>,
    /// Whether a canvas was drawn for each closed phase, by phase.
    pub canvases: Seq<bool>,
}

/// Squad logs in strictly increasing squad order, none of them empty.
pub open spec fn logs_well_formed(logs: Seq<SquadLog>) -> bool {
    &&& forall|i: int, j: int| 0 <= i < j < logs.len() ==> logs[i].squad < logs[j].squad
    &&& forall|i: int|
        0 <= i < logs.len() ==> #[trigger] logs[i].movements@.len() > 0 || logs[i].engagements@.len()
            > 0
}

/// Squad pages listed at most once each.
pub open spec fn pages_unique(pages: Seq<(usize, Side)>) -> bool {
    forall|i: int, j: int| 0 <= i < j < pages.len() ==> pages[i] != pages[j]
}

/// The invariant of a journal: squad logs ordered, pages unique, and the
/// battle totals never below the phase's own counts.
pub open spec fn journal_well_formed(v: JournalView) -> bool {
    &&& logs_well_formed(v.squad_logs)
    &&& pages_unique(v.squad_pages)
    &&& v.phase >= 1
    &&& v.total_ammo_a >= v.ammo_a
    &&& v.total_ammo_b >= v.ammo_b
    &&& v.total_deaths_a >= v.deaths_a.len()
    &&& v.total_deaths_b >= v.deaths_b.len()
}

/// The camp a squad was last seen fighting for, or `All` when unknown.
pub open spec fn camp_of_squad(sides: Map<usize, Side>, squad: usize) -> Side {
    if sides.contains_key(squad) {
        sides[squad]
    } else {
        Side::All
    }
}

/// `new` is `old` with `line` appended to the movement lines (or, when
/// `movement` is false, the engagement lines) of `squad`, the squad being
/// added in its place when it had no lines yet.
pub open spec fn line_added(
    old: Seq<SquadLog>,
    new: Seq<SquadLog>,
    squad: usize,
    line: Seq<char>,
    movement: bool,
) -> bool {
    if exists|k: int| 0 <= k < old.len() && old[k].squad == squad {
        let k = choose|k: int| 0 <= k < old.len() && old[k].squad == squad;
        &&& new.len() == old.len()
        &&& forall|j: int| 0 <= j < old.len() && j != k ==> new[j] == old[j]
        &&& new[k].squad == squad
        &&& if movement {
            &&& views(new[k].movements@) == views(old[k].movements@).push(line)
            &&& new[k].engagements@ == old[k].engagements@
        } else {
            &&& new[k].movements@ == old[k].movements@
            &&& views(new[k].engagements@) == views(old[k].engagements@).push(line)
        }
    } else {
        exists|k: int|
            0 <= k <= old.len() && {
                &&& new.len() == old.len() + 1
                &&& forall|j: int| 0 <= j < k ==> new[j] == old[j]
                &&& forall|j: int| k < j < new.len() ==> new[j] == old[j - 1]
                &&& new[k].squad == squad
                &&& if movement {
                    &&& views(new[k].movements@) == seq![line]
                    &&& new[k].engagements@.len() == 0
                } else {
                    &&& new[k].movements@.len() == 0
                    &&& views(new[k].engagements@) == seq![line]
                }
            }
    }
}

/// What the journal of a battle keeps: the lines, counts and support
/// traffic of the phase being recorded, and the battle's totals.
pub struct BattleJournal {
    phase: usize,
    start_frame: u64,
    current_order: Option<usize>,
    order_counter: usize,
    squad_logs: Vec<SquadLog>,
    squad_sides: HashMap<usize, Side>,
    deaths_a: Vec<String>,
    deaths_b: Vec<String>,
    ammo_a: usize,
    ammo_b: usize,
    total_deaths_a: usize,
    total_deaths_b: usize,
    total_ammo_a: usize,
    total_ammo_b: usize,
    squad_pages: Vec<(usize, Side)>,
    requests: Vec<SupportRequestLog>,
    assignments: Vec<SupportAssignmentLog>,
    supplies: Vec<SupportSupplyLog>,
    events: Vec<CanvasEventLog>,
    canvases: Vec<bool>,
}

impl View for BattleJournal {
    type V = JournalView;

    closed spec fn view(&self) -> JournalView {
        JournalView {
            phase: self.phase,
            start_frame: self.start_frame,
            current_order: self.current_order,
            order_counter: self.order_counter,
            squad_logs: self.squad_logs@,
            squad_sides: self.squad_sides@,
            deaths_a: self.deaths_a@,
            deaths_b: self.deaths_b@,
            ammo_a: self.ammo_a,
            ammo_b: self.ammo_b,
            total_deaths_a: self.total_deaths_a,
            total_deaths_b: self.total_deaths_b,
            total_ammo_a: self.total_ammo_a,
            total_ammo_b: self.total_ammo_b,
            squad_pages: self.squad_pages@,
            requests: self.requests@,
            assignments: self.assignments@,
            supplies: self.supplies@,
            events: self.events@,
            canvases: self.canvases@,
        }
    }
}

impl BattleJournal {
    /// A journal for a battle starting at `start_frame`: phase 1, nothing
    /// recorded.
    pub fn new(start_frame: u64) -> (j: BattleJournal)
        ensures
            journal_well_formed(j@),
            j@ == (JournalView {
                phase: 1,
                start_frame,
                current_order: None,
                order_counter: 0,
                squad_logs: Seq::empty(),
                squad_sides: Map::empty(),
                deaths_a: Seq::empty(),
                deaths_b: Seq::empty(),
                ammo_a: 0,
                ammo_b: 0,
                total_deaths_a: 0,
                total_deaths_b: 0,
                total_ammo_a: 0,
                total_ammo_b: 0,
                squad_pages: Seq::empty(),
                requests: Seq::empty(),
                assignments: Seq::empty(),
                supplies: Seq::empty(),
                events: Seq::empty(),
                canvases: Seq::empty(),
            }),
    {
        let j = BattleJournal {
            phase: 1,
            start_frame,
            current_order: None,
            order_counter: 0,
            squad_logs: Vec::new(),
            squad_sides: HashMap::new(),
            deaths_a: Vec::new(),
            deaths_b: Vec::new(),
            ammo_a: 0,
            ammo_b: 0,
            total_deaths_a: 0,
            total_deaths_b: 0,
            total_ammo_a: 0,
            total_ammo_b: 0,
            squad_pages: Vec::new(),
            requests: Vec::new(),
            assignments: Vec::new(),
            supplies: Vec::new(),
            events: Vec::new(),
            canvases: Vec::new(),
        };
        assert(j@.squad_logs =~= Seq::<SquadLog>::empty());
        j
    }

    /// The phase being recorded.
    pub fn phase(&self) -> (p: usize)
        ensures
            p == self@.phase,
    {
        self.phase
    }

    /// The frame at which the current phase started.
    pub fn start_frame(&self) -> (f: u64)
        ensures
            f == self@.start_frame,
    {
        self.start_frame
    }

    /// Rounds fired in the phase and in the battle, for camps A and B.
    pub fn ammo_counts(&self) -> (c: (usize, usize, usize, usize))
        ensures
            c == (self@.ammo_a, self@.ammo_b, self@.total_ammo_a, self@.total_ammo_b),
    {
        (self.ammo_a, self.ammo_b, self.total_ammo_a, self.total_ammo_b)
    }

    /// Deaths in the battle, for camps A and B.
    pub fn death_totals(&self) -> (c: (usize, usize))
        ensures
            c == (self@.total_deaths_a, self@.total_deaths_b),
    {
        (self.total_deaths_a, self.total_deaths_b)
    }

    /// How many orders were issued.
    pub fn order_count(&self) -> (n: usize)
        ensures
            n == self@.order_counter,
    {
        self.order_counter
    }

    /// The camp a squad was last seen fighting for, `All` when unknown.
    pub fn camp_of(&self, squad: usize) -> (side: Side)
        ensures
            side == camp_of_squad(self@.squad_sides, squad),
    {
        match self.squad_sides.get(&squad) {
            Some(s) => *s,
            None => Side::All,
        }
    }

    /// Whether the camp of a squad is known, and which.
    pub fn known_camp(&self, squad: usize) -> (side: Option<Side>)
        ensures
            side == (if self@.squad_sides.contains_key(squad) {
                Some(self@.squad_sides[squad])
            } else {
                None
            }),
    {
        match self.squad_sides.get(&squad) {
            Some(s) => Some(*s),
            None => None,
        }
    }

    /// Records the camp of a squad.
    fn note_camp(&mut self, squad: usize, side: Side)
        ensures
            final(self)@ == (JournalView {
                squad_sides: old(self)@.squad_sides.insert(squad, side),
                ..old(self)@
            }),
    {
        self.squad_sides.insert(squad, side);
    }

    /// Counts `amount` rounds fired by camp `side` in the phase and in the
    /// battle; rounds of an unknown camp are not counted.
    pub fn log_ammo(&mut self, side: Side, amount: usize)
        requires
            journal_well_formed(old(self)@),
            side == Side::A ==> old(self)@.total_ammo_a + amount <= usize::MAX,
            side == Side::B ==> old(self)@.total_ammo_b + amount <= usize::MAX,
        ensures
            totals_step(TotalsEffect::Rounds(side, amount), old(self)@, final(self)@),
            journal_well_formed(final(self)@),
            final(self)@ == (match side {
                Side::A => JournalView {
                    ammo_a: (old(self)@.ammo_a + amount) as usize,
                    total_ammo_a: (old(self)@.total_ammo_a + amount) as usize,
                    ..old(self)@
                },
                Side::B => JournalView {
                    ammo_b: (old(self)@.ammo_b + amount) as usize,
                    total_ammo_b: (old(self)@.total_ammo_b + amount) as usize,
                    ..old(self)@
                },
                Side::All => old(self)@,
            }),
    {
        match side {
            Side::A => {
                self.ammo_a = self.ammo_a + amount;
                self.total_ammo_a = self.total_ammo_a + amount;
            },
            Side::B => {
                self.ammo_b = self.ammo_b + amount;
                self.total_ammo_b = self.total_ammo_b + amount;
            },
            Side::All => {},
        }
    }

    /// Appends a movement line (or, when `movement` is false, an engagement
    /// line) to the lines of `squad`, keeping squads in increasing order.
    fn add_line(&mut self, squad: usize, line: String, movement: bool)
        requires
            journal_well_formed(old(self)@),
        ensures
            journal_well_formed(final(self)@),
            line_added(old(self)@.squad_logs, final(self)@.squad_logs, squad, line@, movement),
            final(self)@ == (JournalView { squad_logs: final(self)@.squad_logs, ..old(self)@ }),
    {
        let ghost old_logs = self.squad_logs@;
        let ghost line_text = line@;
        let n = self.squad_logs.len();
        let mut i: usize = 0;
        while i < n && self.squad_logs[i].squad < squad
            invariant
                n == self.squad_logs@.len(),
                self.squad_logs@ == old_logs,
                i <= n,
                forall|k: int| 0 <= k < i ==> #[trigger] old_logs[k].squad < squad,
            decreases n - i,
        {
            i = i + 1;
        }
        if i < n && self.squad_logs[i].squad == squad {
            let mut entry = self.squad_logs.remove(i);
            if movement {
                entry.movements.push(line);
            } else {
                entry.engagements.push(line);
            }
            self.squad_logs.insert(i, entry);
            proof {
                let new_logs = self.squad_logs@;
                assert(new_logs =~= old_logs.update(i as int, entry));
                assert(old_logs[i as int].squad == squad);
                let k = choose|k: int| 0 <= k < old_logs.len() && old_logs[k].squad == squad;
                if k != i {
                    if k < i {
                        assert(old_logs[k].squad < squad);
                    } else {
                        assert(old_logs[i as int].squad < old_logs[k].squad);
                    }
                }
                assert(k == i);
                if movement {
                    assert(views(entry.movements@) =~= views(old_logs[k].movements@).push(line_text));
                } else {
                    assert(views(entry.engagements@) =~= views(old_logs[k].engagements@).push(line_text));
                }
                assert(logs_well_formed(new_logs)) by {
                    assert forall|a: int, b: int| 0 <= a < b < new_logs.len() implies new_logs[a].squad
                        < new_logs[b].squad by {
                        assert(old_logs[a].squad < old_logs[b].squad);
                    }
                    assert forall|a: int| 0 <= a < new_logs.len() implies #[trigger] new_logs[a].movements@.len() > 0
                        || new_logs[a].engagements@.len() > 0 by {
                        if a != i {
                            assert(new_logs[a] == old_logs[a]);
                        }
                    }
                }
            }
        } else {
            let mut movements: Vec<String> = Vec::new();
            let mut engagements: Vec<String> = Vec::new();
            if movement {
                movements.push(line);
            } else {
                engagements.push(line);
            }
            let entry = SquadLog { squad, movements, engagements };
            self.squad_logs.insert(i, entry);
            proof {
                let new_logs = self.squad_logs@;
                assert(new_logs =~= old_logs.insert(i as int, entry));
                assert forall|k: int| 0 <= k < old_logs.len() implies old_logs[k].squad != squad by {
                    if k >= i {
                        assert(old_logs[i as int].squad > squad);
                        if k > i {
                            assert(old_logs[i as int].squad < old_logs[k].squad);
                        }
                    }
                }
                if movement {
                    assert(views(entry.movements@) =~= seq![line_text]);
                } else {
                    assert(views(entry.engagements@) =~= seq![line_text]);
                }
                assert(new_logs[i as int] == entry);
                assert forall|j: int| 0 <= j < i implies new_logs[j] == old_logs[j] by {}
                assert forall|j: int| i < j < new_logs.len() implies new_logs[j] == old_logs[j - 1] by {}
                assert(logs_well_formed(new_logs)) by {
                    assert forall|a: int, b: int| 0 <= a < b < new_logs.len() implies new_logs[a].squad
                        < new_logs[b].squad by {
                        if b < i {
                        } else if b == i {
                            assert(old_logs[a].squad < squad);
                        } else if a < i {
                            assert(old_logs[a].squad < squad);
                            assert(squad < old_logs[i as int].squad);
                            if b - 1 > i {
                                assert(old_logs[i as int].squad < old_logs[b - 1].squad);
                            }
                        } else if a == i {
                            assert(squad < old_logs[i as int].squad);
                            if b - 1 > i {
                                assert(old_logs[i as int].squad < old_logs[b - 1].squad);
                            }
                        } else {
                            assert(old_logs[a - 1].squad < old_logs[b - 1].squad);
                        }
                    }
                    assert forall|a: int| 0 <= a < new_logs.len() implies #[trigger] new_logs[a].movements@.len() > 0
                        || new_logs[a].engagements@.len() > 0 by {
                        if a < i {
                            assert(new_logs[a] == old_logs[a]);
                        } else if a > i {
                            assert(new_logs[a] == old_logs[a - 1]);
                        }
                    }
                }
            }
        }
    }

    /// Records that a soldier of squad `squad` moved from one sector to
    /// another. The squad's camp is noted in any case; only a change of
    /// sector is written down, as a movement line of the squad and an event
    /// on the map, and the line is returned (for the squad's page).
    /// `distance_text` is the squad's distance covered so far, as printed.
    pub fn log_movement(
        &mut self,
        frame: u64,
        side: Side,
        squad: usize,
        from_sector: String,
        to_sector: String,
        terrain: &str,
        is_indoor: bool,
        distance_text: &str,
        posture: &str,
    ) -> (line: Option<String>)
        requires
            journal_well_formed(old(self)@),
        ensures
            totals_step(TotalsEffect::Unchanged, old(self)@, final(self)@),
            journal_well_formed(final(self)@),
            from_sector@ == to_sector@ ==> line is None && final(self)@ == (JournalView {
                squad_sides: old(self)@.squad_sides.insert(squad, side),
                ..old(self)@
            }),
            from_sector@ != to_sector@ ==> {
                let text = movement_line_text(
                    frame,
                    squad,
                    side,
                    from_sector@,
                    to_sector@,
                    terrain@,
                    is_indoor,
                    distance_text@,
                    posture@,
                    old(self)@.current_order,
                );
                &&& line is Some
                &&& line->0@ == text
                &&& line_added(old(self)@.squad_logs, final(self)@.squad_logs, squad, text, true)
                &&& final(self)@.events.len() == old(self)@.events.len() + 1
                &&& final(self)@.events.drop_last() == old(self)@.events
                &&& event_is(
                    final(self)@.events.last(),
                    frame,
                    side,
                    squad,
                    EventKind::Movement,
                    to_sector@,
                    movement_desc_text(from_sector@, to_sector@),
                    None,
                )
                &&& final(self)@ == (JournalView {
                    squad_sides: old(self)@.squad_sides.insert(squad, side),
                    squad_logs: final(self)@.squad_logs,
                    events: final(self)@.events,
                    ..old(self)@
                })
            },
    {
        self.note_camp(squad, side);
        if from_sector.eq(&to_sector) {
            return None;
        }
        let squad_link = format_squad_link(squad, side);
        let mut line = String::new();
        line.append("- [Frame ");
        push_decimal(&mut line, frame);
        line.append("] ");
        line.append(squad_link.as_str());
        line.append(": 섹터 이동: ");
        line.append(from_sector.as_str());
        line.append(" -> ");
        line.append(to_sector.as_str());
        line.append(" (진입 지형: ");
        line.append(terrain);
        line.append(", 환경: ");
        line.append(environment_label(is_indoor));
        line.append(", 자세: ");
        line.append(posture);
        line.append(", 누적 이동 거리: ");
        line.append(distance_text);
        line.append("m) (명령: ");
        let order = order_link(self.current_order);
        line.append(order.as_str());
        line.append(")");
        assert(line@ =~= movement_line_text(
            frame,
            squad,
            side,
            from_sector@,
            to_sector@,
            terrain@,
            is_indoor,
            distance_text@,
            posture@,
            old(self)@.current_order,
        ));
        self.add_line(squad, line.clone(), true);
        let mut desc = String::new();
        desc.append("🏃 이동: ");
        desc.append(from_sector.as_str());
        desc.append(" -> ");
        desc.append(to_sector.as_str());
        assert(desc@ =~= movement_desc_text(from_sector@, to_sector@));
        self.events.push(
            CanvasEventLog {
                frame,
                side,
                squad_id: squad,
                event_type: EventKind::Movement,
                sector: to_sector,
                desc,
                target_squad: None,
            },
        );
        assert(self@.events.drop_last() =~= old(self)@.events);
        Some(line)
    }

    /// Records that squad `squad` engaged squad `target_squad`: both camps
    /// are noted, an engagement line is added to the attacker's lines, an
    /// event is put on the map, and the target squad gets a page if it had
    /// none. Returns the engagement line (for the attacker's page), the line
    /// for the defender's page, and the defender's new page if one was made.
    /// `target_grid_text` and `threat_text` are the target's grid position
    /// and the threat score (one decimal), as printed.
    pub fn log_engagement(
        &mut self,
        frame: u64,
        side: Side,
        squad: usize,
        target_side: Side,
        target_squad: usize,
        target_grid_text: &str,
        target_sector: &str,
        target_count: usize,
        target_terrain: &str,
        target_is_indoor: bool,
        posture: &str,
        threat_text: &str,
    ) -> (lines: EngagementLines)
        requires
            journal_well_formed(old(self)@),
        ensures
            totals_step(TotalsEffect::Unchanged, old(self)@, final(self)@),
            journal_well_formed(final(self)@),
            ({
                let text = engagement_line_text(
                    frame,
                    squad,
                    side,
                    target_squad,
                    target_side,
                    target_grid_text@,
                    target_sector@,
                    target_count,
                    target_terrain@,
                    target_is_indoor,
                    posture@,
                    threat_text@,
                    old(self)@.current_order,
                );
                let had_page = old(self)@.squad_pages.contains((target_squad, target_side));
                &&& lines.attacker_line@ == text
                &&& lines.defender_line@ == defender_line_text(
                    frame,
                    squad,
                    side,
                    target_squad,
                    target_side,
                )
                &&& line_added(old(self)@.squad_logs, final(self)@.squad_logs, squad, text, false)
                &&& final(self)@.events.len() == old(self)@.events.len() + 1
                &&& final(self)@.events.drop_last() == old(self)@.events
                &&& event_is(
                    final(self)@.events.last(),
                    frame,
                    side,
                    squad,
                    EventKind::Engagement,
                    target_sector@,
                    engagement_desc_text(target_squad, target_count, threat_text@),
                    Some(target_squad),
                )
                &&& had_page ==> lines.defender_page is None
                &&& !had_page ==> lines.defender_page is Some && lines.defender_page->0@
                    == squad_page_text(target_squad, target_side, old(self)@.start_frame)
                &&& final(self)@ == (JournalView {
                    squad_sides: old(self)@.squad_sides.insert(squad, side).insert(
                        target_squad,
                        target_side,
                    ),
                    squad_logs: final(self)@.squad_logs,
                    events: final(self)@.events,
                    squad_pages: if had_page {
                        old(self)@.squad_pages
                    } else {
                        old(self)@.squad_pages.push((target_squad, target_side))
                    },
                    ..old(self)@
                })
            }),
    {
        self.note_camp(squad, side);
        self.note_camp(target_squad, target_side);
        let squad_link = format_squad_link(squad, side);
        let target_link = format_squad_link(target_squad, target_side);
        let mut line = String::new();
        line.append("- [Frame ");
        push_decimal(&mut line, frame);
        line.append("] ");
        line.append(squad_link.as_str());
        line.append(" → ");
        line.append(target_link.as_str());
        line.append(" 교전: 대상 위치: ");
        line.append(target_grid_text);
        line.append(" (섹터: ");
        line.append(target_sector);
        line.append("), 병력: ");
        push_decimal(&mut line, target_count as u64);
        line.append("명 (지형: ");
        line.append(target_terrain);
        line.append(", 환경: ");
        line.append(environment_label(target_is_indoor));
        line.append(", 자세: ");
        line.append(posture);
        line.append(") [위협도: ");
        line.append(threat_text);
        line.append("] (명령: ");
        let order = order_link(self.current_order);
        line.append(order.as_str());
        line.append(")");
        assert(line@ =~= engagement_line_text(
            frame,
            squad,
            side,
            target_squad,
            target_side,
            target_grid_text@,
            target_sector@,
            target_count,
            target_terrain@,
            target_is_indoor,
            posture@,
            threat_text@,
            old(self)@.current_order,
        ));
        self.add_line(squad, line.clone(), false);
        let mut desc = String::new();
        desc.append("💥 교전 개시\n목표: 분대 ");
        push_decimal(&mut desc, target_squad as u64);
        desc.append(" (");
        push_decimal(&mut desc, target_count as u64);
        desc.append("명)\n위협도: ");
        desc.append(threat_text);
        assert(desc@ =~= engagement_desc_text(target_squad, target_count, threat_text@));
        let mut sector = String::new();
        sector.append(target_sector);
        self.events.push(
            CanvasEventLog {
                frame,
                side,
                squad_id: squad,
                event_type: EventKind::Engagement,
                sector,
                desc,
                target_squad: Some(target_squad),
            },
        );
        assert(self@.events.drop_last() =~= old(self)@.events);
        let defender_page = self.ensure_squad_page(target_squad, target_side);
        let mut defender_line = String::new();
        defender_line.append("- [Frame ");
        push_decimal(&mut defender_line, frame);
        defender_line.append("] ");
        defender_line.append(target_link.as_str());
        defender_line.append(" 에게 교전당함 (공격자: ");
        defender_line.append(squad_link.as_str());
        defender_line.append(")");
        assert(defender_line@ =~= defender_line_text(frame, squad, side, target_squad, target_side));
        EngagementLines { attacker_line: line, defender_line, defender_page }
    }

    /// Records the death of a soldier of squad `squad`: an event is put on
    /// the map and, for camps A and B, a death line is added to the camp's
    /// losses of the phase and the camp's death toll rises by one.
    /// `grid_text` is the place of death, as printed.
    pub fn log_death(
        &mut self,
        frame: u64,
        side: Side,
        squad: usize,
        grid_text: &str,
        sector: &str,
        terrain: &str,
        is_indoor: bool,
        cause: &str,
    )
        requires
            journal_well_formed(old(self)@),
            side == Side::A ==> old(self)@.total_deaths_a < usize::MAX,
            side == Side::B ==> old(self)@.total_deaths_b < usize::MAX,
        ensures
            totals_step(TotalsEffect::Death(side), old(self)@, final(self)@),
            journal_well_formed(final(self)@),
            final(self)@.events.len() == old(self)@.events.len() + 1,
            final(self)@.events.drop_last() == old(self)@.events,
            event_is(
                final(self)@.events.last(),
                frame,
                side,
                squad,
                EventKind::Death,
                sector@,
                death_desc_text(cause@),
                None,
            ),
            ({
                let text = death_line_text(frame, squad, side, grid_text@, sector@, terrain@, is_indoor, cause@);
                match side {
                    Side::A => {
                        &&& views(final(self)@.deaths_a) == views(old(self)@.deaths_a).push(text)
                        &&& final(self)@ == (JournalView {
                            events: final(self)@.events,
                            deaths_a: final(self)@.deaths_a,
                            total_deaths_a: (old(self)@.total_deaths_a + 1) as usize,
                            ..old(self)@
                        })
                    },
                    Side::B => {
                        &&& views(final(self)@.deaths_b) == views(old(self)@.deaths_b).push(text)
                        &&& final(self)@ == (JournalView {
                            events: final(self)@.events,
                            deaths_b: final(self)@.deaths_b,
                            total_deaths_b: (old(self)@.total_deaths_b + 1) as usize,
                            ..old(self)@
                        })
                    },
                    Side::All => final(self)@ == (JournalView {
                        events: final(self)@.events,
                        ..old(self)@
                    }),
                }
            }),
    {
        let squad_link = format_squad_link(squad, side);
        let mut line = String::new();
        line.append("- [Frame ");
        push_decimal(&mut line, frame);
        line.append("] 병사 ");
        line.append(squad_link.as_str());
        line.append(" 사망 | 위치: ");
        line.append(grid_text);
        line.append(" (섹터: ");
        line.append(sector);
        line.append(") (지형: ");
        line.append(terrain);
        line.append(", 환경: ");
        line.append(environment_label(is_indoor));
        line.append(") | 원인: ");
        line.append(cause);
        assert(line@ =~= death_line_text(frame, squad, side, grid_text@, sector@, terrain@, is_indoor, cause@));
        let mut desc = String::new();
        desc.append("💀 사망\n원인: ");
        desc.append(cause);
        assert(desc@ =~= death_desc_text(cause@));
        let mut sector_text = String::new();
        sector_text.append(sector);
        self.events.push(
            CanvasEventLog {
                frame,
                side,
                squad_id: squad,
                event_type: EventKind::Death,
                sector: sector_text,
                desc,
                target_squad: None,
            },
        );
        assert(self@.events.drop_last() =~= old(self)@.events);
        let ghost line_text = line@;
        match side {
            Side::A => {
                self.deaths_a.push(line);
                self.total_deaths_a = self.total_deaths_a + 1;
                assert(views(self@.deaths_a) =~= views(old(self)@.deaths_a).push(line_text));
            },
            Side::B => {
                self.deaths_b.push(line);
                self.total_deaths_b = self.total_deaths_b + 1;
                assert(views(self@.deaths_b) =~= views(old(self)@.deaths_b).push(line_text));
            },
            Side::All => {},
        }
    }

    /// Issues a new order to squad `squad`: the order counter rises by one
    /// and the new order becomes the current one. Returns the order's id,
    /// the contents of its page, the squad's new page if it had none, and
    /// the line linking the order from the phase page.
    pub fn start_new_order(&mut self, command: &str, squad: usize, side: Side, frame: u64) -> (order: NewOrder)
        requires
            journal_well_formed(old(self)@),
            old(self)@.order_counter < usize::MAX,
        ensures
            totals_step(TotalsEffect::Unchanged, old(self)@, final(self)@),
            journal_well_formed(final(self)@),
            ({
                let id = (old(self)@.order_counter + 1) as usize;
                let had_page = old(self)@.squad_pages.contains((squad, side));
                &&& order.order_id == id
                &&& order.page@ == order_page_text(id, command@, squad, side, frame, old(self)@.phase)
                &&& order.phase_line@ == order_phase_line_text(id, frame)
                &&& had_page ==> order.squad_page is None
                &&& !had_page ==> order.squad_page is Some && order.squad_page->0@
                    == squad_page_text(squad, side, old(self)@.start_frame)
                &&& final(self)@ == (JournalView {
                    order_counter: id,
                    current_order: Some(id),
                    squad_pages: if had_page {
                        old(self)@.squad_pages
                    } else {
                        old(self)@.squad_pages.push((squad, side))
                    },
                    ..old(self)@
                })
            }),
    {
        self.order_counter = self.order_counter + 1;
        let order_id = self.order_counter;
        self.current_order = Some(order_id);
        let name = format_squad(squad, side);
        let link = format_squad_link(squad, side);
        let mut page = String::new();
        page.append("---\ntitle: Order #");
        push_decimal(&mut page, order_id as u64);
        page.append("\ntags: [Side_");
        page.append(side_label(side));
        page.append("]\nsquad: \"[[");
        page.append(name.as_str());
        page.append("]]\"\ncommand: \"");
        page.append(command);
        page.append("\"\nframe: ");
        push_decimal(&mut page, frame);
        page.append("\nphase: \"[[Phase_");
        push_decimal(&mut page, self.phase as u64);
        page.append("]]\"\n---\n\n# Order #");
        push_decimal(&mut page, order_id as u64);
        page.append("\n\n## 실행 명령\n- 명령어: ");
        page.append(command);
        page.append("\n- 대상 분대: ");
        page.append(link.as_str());
        page.append("\n- 실행 프레임: ");
        push_decimal(&mut page, frame);
        page.append("\n\n## 관련 로그\n");
        assert(page@ =~= order_page_text(order_id, command@, squad, side, frame, old(self)@.phase));
        let squad_page = self.ensure_squad_page(squad, side);
        let mut phase_line = String::new();
        phase_line.append("- [[Order_");
        push_decimal(&mut phase_line, order_id as u64);
        phase_line.append("]] 실행됨 (Frame: ");
        push_decimal(&mut phase_line, frame);
        phase_line.append(")");
        assert(phase_line@ =~= order_phase_line_text(order_id, frame));
        NewOrder { order_id, page, squad_page, phase_line }
    }

    /// Records a call for support in the current phase.
    pub fn log_support_request(&mut self, request: SupportRequestLog)
        ensures
            totals_step(TotalsEffect::Unchanged, old(self)@, final(self)@),
            final(self)@ == (JournalView { requests: old(self)@.requests.push(request), ..old(self)@ }),
    {
        self.requests.push(request);
    }

    /// Records a support assignment in the current phase.
    pub fn log_support_assignment(&mut self, assignment: SupportAssignmentLog)
        ensures
            totals_step(TotalsEffect::Unchanged, old(self)@, final(self)@),
            final(self)@ == (JournalView {
                assignments: old(self)@.assignments.push(assignment),
                ..old(self)@
            }),
    {
        self.assignments.push(assignment);
    }

    /// Records a resupply in the current phase.
    pub fn log_support_supply(&mut self, supply: SupportSupplyLog)
        ensures
            totals_step(TotalsEffect::Unchanged, old(self)@, final(self)@),
            final(self)@ == (JournalView { supplies: old(self)@.supplies.push(supply), ..old(self)@ }),
    {
        self.supplies.push(supply);
    }

    /// Closes the current phase at `end_frame`: the phase's lines, losses,
    /// rounds and support traffic are cleared, the phase number rises by one
    /// and the next phase starts at `end_frame`. Battle totals, camps, pages,
    /// orders and map events stay.
    pub fn finish_phase(&mut self, end_frame: u64)
        requires
            journal_well_formed(old(self)@),
            old(self)@.phase < usize::MAX,
        ensures
            totals_step(TotalsEffect::Unchanged, old(self)@, final(self)@),
            journal_well_formed(final(self)@),
            final(self)@ == (JournalView {
                phase: (old(self)@.phase + 1) as usize,
                start_frame: end_frame,
                squad_logs: Seq::empty(),
                deaths_a: Seq::empty(),
                deaths_b: Seq::empty(),
                ammo_a: 0,
                ammo_b: 0,
                requests: Seq::empty(),
                assignments: Seq::empty(),
                supplies: Seq::empty(),
                ..old(self)@
            }),
    {
        self.squad_logs.clear();
        self.deaths_a.clear();
        self.deaths_b.clear();
        self.ammo_a = 0;
        self.ammo_b = 0;
        self.requests.clear();
        self.assignments.clear();
        self.supplies.clear();
        self.phase = self.phase + 1;
        self.start_frame = end_frame;
        assert(self@.squad_logs =~= Seq::<SquadLog>::empty());
    }

    /// Whether `order` lists each squad with records in the current phase
    /// exactly once; see [`is_phase_order`].
    pub fn is_phase_order(&self, order: &Vec<usize>) -> (ok: bool)
        ensures
            ok == is_phase_order(self@, order@),
    {
        if order.len() != self.squad_logs.len() {
            return false;
        }
        let n = order.len();
        let mut i: usize = 0;
        while i < n
            invariant
                n == order@.len(),
                n == self@.squad_logs.len(),
                i <= n,
                forall|a: int, b: int| 0 <= a < b < n && a < i ==> order@[a] != order@[b],
                forall|k: int| 0 <= k < i ==> phase_squad_ids(self@).contains(#[trigger] order@[k]),
            decreases n - i,
        {
            let mut found = false;
            let mut j: usize = 0;
            while j < n
                invariant
                    n == order@.len(),
                    n == self@.squad_logs.len(),
                    i < n,
                    j <= n,
                    found ==> phase_squad_ids(self@).contains(order@[i as int]),
                    !found ==> forall|b: int| 0 <= b < j ==> self@.squad_logs[b].squad != order@[i as int],
                    forall|b: int| i < b < n && b < j ==> order@[i as int] != order@[b],
                decreases n - j,
            {
                if j > i && order[j] == order[i] {
                    return false;
                }
                if self.squad_logs[j].squad == order[i] {
                    assert(phase_squad_ids(self@)[j as int] == order@[i as int]);
                    found = true;
                }
                j = j + 1;
            }
            if !found {
                proof {
                    if phase_squad_ids(self@).contains(order@[i as int]) {
                        let w = choose|w: int|
                            0 <= w < n && phase_squad_ids(self@)[w] == order@[i as int];
                        assert(false) by {
                            assert(self@.squad_logs[w].squad == order@[i as int]);
                        }
                    }
                }
                return false;
            }
            i = i + 1;
        }
        proof {
            assert forall|a: int, b: int| 0 <= a < order@.len() && 0 <= b < order@.len() && a != b implies order@[a]
                != order@[b] by {
                if a > b {
                    assert(order@[b] != order@[a]);
                }
            }
        }
        true
    }

    /// The squads with lines in the current phase, in increasing order.
    pub fn phase_squads(&self) -> (squads: Vec<usize>)
        ensures
            squads@ == self@.squad_logs.map_values(|l: SquadLog| l.squad),
    {
        let mut squads: Vec<usize> = Vec::new();
        let mut i: usize = 0;
        while i < self.squad_logs.len()
            invariant
                i <= self.squad_logs@.len(),
                squads@ == self.squad_logs@.subrange(0, i as int).map_values(|l: SquadLog| l.squad),
            decreases self.squad_logs@.len() - i,
        {
            squads.push(self.squad_logs[i].squad);
            i = i + 1;
            assert(squads@ =~= self.squad_logs@.subrange(0, i as int).map_values(
                |l: SquadLog| l.squad,
            ));
        }
        assert(self.squad_logs@.subrange(0, i as int) =~= self.squad_logs@);
        squads
    }

    /// Where the lines of `squad` are kept, if it has any.
    fn log_index(&self, squad: usize) -> (k: Option<usize>)
        ensures
            match k {
                Some(k) => k < self@.squad_logs.len() && log_of(self@.squad_logs, squad) == Some(
                    self@.squad_logs[k as int],
                ),
                None => log_of(self@.squad_logs, squad) is None,
            },
    {
        let mut i: usize = 0;
        while i < self.squad_logs.len()
            invariant
                i <= self.squad_logs@.len(),
                forall|j: int| 0 <= j < i ==> #[trigger] self.squad_logs@[j].squad != squad,
            decreases self.squad_logs@.len() - i,
        {
            if self.squad_logs[i].squad == squad {
                proof {
                    lemma_log_of_index(self@.squad_logs, squad, i as int);
                }
                return Some(i);
            }
            i = i + 1;
        }
        proof {
            lemma_log_of_none(self@.squad_logs, squad);
        }
        None
    }

    /// The page links of the phase's squads, quoted (for the header) or
    /// coloured (for the body), in squad order.
    fn squad_items(&self, coloured: bool) -> (items: Vec<String>)
        ensures
            views(items@) == if coloured {
                body_items(self@)
            } else {
                header_items(self@)
            },
    {
        let mut items: Vec<String> = Vec::new();
        let mut i: usize = 0;
        while i < self.squad_logs.len()
            invariant
                i <= self.squad_logs@.len(),
                views(items@) == (if coloured {
                    body_items(self@)
                } else {
                    header_items(self@)
                }).subrange(0, i as int),
            decreases self.squad_logs@.len() - i,
        {
            let squad = self.squad_logs[i].squad;
            let side = self.camp_of(squad);
            let item = if coloured {
                format_squad_link(squad, side)
            } else {
                let mut quoted = String::new();
                quoted.append("\"[[");
                let name = format_squad(squad, side);
                quoted.append(name.as_str());
                quoted.append("]]\"");
                assert(quoted@ =~= header_items(self@)[i as int]);
                quoted
            };
            proof {
                if coloured {
                    assert(item@ == body_items(self@)[i as int]);
                }
            }
            let ghost prev = views(items@);
            items.push(item);
            assert(views(items@) =~= prev.push(item@));
            i = i + 1;
            assert(views(items@) =~= (if coloured {
                body_items(self@)
            } else {
                header_items(self@)
            }).subrange(0, i as int));
        }
        assert((if coloured {
            body_items(self@)
        } else {
            header_items(self@)
        }).subrange(0, i as int) =~= if coloured {
            body_items(self@)
        } else {
            header_items(self@)
        });
        items
    }

    /// Appends the section of the phase page on one squad.
    fn push_section(&self, out: &mut String, squad: usize)
        ensures
            final(out)@ == old(out)@ + squad_section_text(self@, squad),
    {
        out.append("\n### ");
        let link = format_squad_link(squad, self.camp_of(squad));
        out.append(link.as_str());
        out.append(" 동선 및 교전\n");
        match self.log_index(squad) {
            Some(k) => {
                push_lines(out, &self.squad_logs[k].movements);
                push_lines(out, &self.squad_logs[k].engagements);
            },
            None => {},
        }
        assert(out@ =~= old(out)@ + squad_section_text(self@, squad));
    }

    /// The page of the current phase, closed at `end_frame` by `trigger`,
    /// with the squads' records in the order `order` gives (the callers
    /// put the squads under the greatest threat first).
    pub fn phase_report(&self, end_frame: u64, trigger: &str, order: &Vec<usize>) -> (page: String)
        requires
            is_phase_order(self@, order@),
        ensures
            page@ == phase_report_text(self@, end_frame, trigger@, order@),
    {
        let header = join_strings(&sort_strings(self.squad_items(false)), ", ");
        let body = join_strings(&sort_strings(self.squad_items(true)), ", ");
        let mut page = String::new();
        page.append("---\nphase: ");
        push_decimal(&mut page, self.phase as u64);
        page.append("\nstart_frame: ");
        push_decimal(&mut page, self.start_frame);
        page.append("\nend_frame: ");
        push_decimal(&mut page, end_frame);
        page.append("\ntrigger_event: \"");
        page.append(trigger);
        page.append("\"\nsquads: [");
        page.append(header.as_str());
        page.append("]\n---\n\n");
        page.append("# Phase ");
        push_decimal(&mut page, self.phase as u64);
        page.append("\n\n");
        page.append("[[../index|상위 디렉토리(Index)로 돌아가기]]\n\n");
        page.append("## 참여 분대\n");
        page.append(body.as_str());
        page.append("\n\n");
        page.append("## 지휘관 동선 및 교전 기록\n");
        let ghost before_records = page@;
        if self.squad_logs.len() == 0 {
            page.append("- 해당 페이즈에 기록된 동선 및 교전이 없습니다.\n");
        } else {
            let mut i: usize = 0;
            while i < order.len()
                invariant
                    i <= order@.len(),
                    page@ == before_records + sections_text(self@, order@.subrange(0, i as int)),
                decreases order@.len() - i,
            {
                self.push_section(&mut page, order[i]);
                proof {
                    let next = order@.subrange(0, i + 1);
                    assert(next.drop_last() =~= order@.subrange(0, i as int));
                }
                i = i + 1;
            }
            assert(order@.subrange(0, order@.len() as int) =~= order@);
        }
        page.append("\n## 전투 손실 (시간순)\n");
        page.append("### 우리팀 (Side A)\n");
        push_losses(&mut page, &self.deaths_a);
        page.append("\n### 상대팀 (Side B)\n");
        push_losses(&mut page, &self.deaths_b);
        page.append("\n## 탄약 소모\n");
        page.append("- 우리팀 (Side A) 탄약 소모량: ");
        push_decimal(&mut page, self.ammo_a as u64);
        page.append("\n");
        page.append("- 상대팀 (Side B) 탄약 소모량: ");
        push_decimal(&mut page, self.ammo_b as u64);
        page.append("\n");
        assert(page@ =~= phase_report_text(self@, end_frame, trigger@, order@));
        page
    }

    /// How many requests, assignments, resupplies and map events the
    /// journal holds.
    pub fn phase_sizes(&self) -> (sizes: (usize, usize, usize, usize))
        ensures
            sizes == (
                self@.requests.len() as usize,
                self@.assignments.len() as usize,
                self@.supplies.len() as usize,
                self@.events.len() as usize,
            ),
    {
        (self.requests.len(), self.assignments.len(), self.supplies.len(), self.events.len())
    }

    /// Closes the current phase at `end_frame`, as triggered by `trigger`:
    /// returns the phase page (squad records in the order `order` gives),
    /// the phase canvas when there is anything to draw, the line for the
    /// index page, and the index line linking the canvas when there were
    /// requests, assignments or map events; then starts the next phase (see
    /// [`BattleJournal::finish_phase`]).
    pub fn close_phase(&mut self, end_frame: u64, trigger: &str, order: &Vec<usize>) -> (record: PhaseRecord)
        requires
            journal_well_formed(old(self)@),
            old(self)@.phase < usize::MAX,
            is_phase_order(old(self)@, order@),
        ensures
            journal_well_formed(final(self)@),
            phase_record_is(record, old(self)@, end_frame, trigger@, order@),
            final(self)@ == phase_closed(old(self)@, end_frame),
            totals_step(TotalsEffect::Unchanged, old(self)@, final(self)@),
    {
        let page = self.phase_report(end_frame, trigger, order);
        let canvas = phase_canvas(
            self.phase,
            self.start_frame,
            end_frame,
            &self.requests,
            &self.assignments,
            &self.supplies,
            &self.events,
            &self.squad_sides,
        );
        let mut index_line = String::new();
        index_line.append("- [[phases/Phase_");
        push_decimal(&mut index_line, self.phase as u64);
        index_line.append("|Phase ");
        push_decimal(&mut index_line, self.phase as u64);
        index_line.append(" 기록 보기]] (Trigger: ");
        index_line.append(trigger);
        index_line.append(")");
        assert(index_line@ =~= phase_index_line_text(self.phase, trigger@));
        let canvas_index_line = if self.requests.len() > 0 || self.assignments.len() > 0
            || self.events.len() > 0 {
            let mut line = String::new();
            line.append("  - [[phases/Phase_");
            push_decimal(&mut line, self.phase as u64);
            line.append(".canvas|Phase ");
            push_decimal(&mut line, self.phase as u64);
            line.append(" 통합 전황 지도 및 지원 플로우 (캔버스)]]");
            assert(line@ =~= canvas_index_line_text(self.phase));
            Some(line)
        } else {
            None
        };
        let drew = canvas.is_some();
        self.finish_phase(end_frame);
        self.canvases.push(drew);
        PhaseRecord { page, canvas, index_line, canvas_index_line }
    }

    /// The summary page of the battle, ended at `end_frame` for `reason`,
    /// linking the canvas of each phase that drew one.
    pub fn total_summary(&self, end_frame: u64, reason: &str) -> (page: String)
        ensures
            page@ == total_summary_text(self@, end_frame, reason@, canvas_flags(self@)),
    {
        let mut flags: Vec<bool> = Vec::new();
        let mut p: usize = 0;
        while p < self.phase
            invariant
                p <= self@.phase,
                flags@ == canvas_flags(self@).subrange(0, p as int),
            decreases self@.phase - p,
        {
            let drew = p < self.canvases.len() && self.canvases[p];
            flags.push(drew);
            proof {
                assert(flags@ =~= canvas_flags(self@).subrange(0, p + 1));
            }
            p = p + 1;
        }
        assert(flags@ =~= canvas_flags(self@));
        self.summary_page(end_frame, reason, &flags)
    }

    /// The summary page, `flow_pages[p - 1]` telling whether phase `p` has
    /// a canvas to link.
    #[verifier::rlimit(40)]
    fn summary_page(&self, end_frame: u64, reason: &str, flow_pages: &Vec<bool>) -> (page: String)
        requires
            flow_pages@.len() == self@.phase,
        ensures
            page@ == total_summary_text(self@, end_frame, reason@, flow_pages@),
    {
        let mut quoted: Vec<String> = Vec::new();
        let mut links: Vec<String> = Vec::new();
        let mut i: usize = 0;
        while i < self.squad_pages.len()
            invariant
                i <= self.squad_pages@.len(),
                views(quoted@) == page_header_items(self@.squad_pages).subrange(0, i as int),
                views(links@) == page_body_items(self@.squad_pages).subrange(0, i as int),
            decreases self.squad_pages@.len() - i,
        {
            let (squad, side) = self.squad_pages[i];
            let mut q = String::new();
            q.append("\"[[");
            let name = format_squad(squad, side);
            q.append(name.as_str());
            q.append("]]\"");
            let ghost qv = views(quoted@);
            let ghost lv = views(links@);
            let link = format_squad_link(squad, side);
            proof {
                assert(q@ =~= page_header_items(self@.squad_pages)[i as int]);
                assert(link@ == page_body_items(self@.squad_pages)[i as int]);
            }
            let ghost qtext = q@;
            let ghost ltext = link@;
            quoted.push(q);
            links.push(link);
            assert(views(quoted@) =~= qv.push(qtext));
            assert(views(links@) =~= lv.push(ltext));
            i = i + 1;
            assert(views(quoted@) =~= page_header_items(self@.squad_pages).subrange(0, i as int));
            assert(views(links@) =~= page_body_items(self@.squad_pages).subrange(0, i as int));
        }
        assert(page_header_items(self@.squad_pages).subrange(0, i as int) =~= page_header_items(self@.squad_pages));
        assert(page_body_items(self@.squad_pages).subrange(0, i as int) =~= page_body_items(self@.squad_pages));
        let header = join_strings(&quoted, ", ");
        let body = join_strings(&links, ", ");
        let mut page = String::new();
        page.append("---\n");
        page.append("phase: total\n");
        page.append("end_frame: ");
        push_decimal(&mut page, end_frame);
        page.append("\nend_reason: \"");
        page.append(reason);
        page.append("\"\ntotal_squads: [");
        page.append(header.as_str());
        page.append("]\n---\n\n");
        page.append("# Total Summary\n\n");
        page.append("[[../index|상위 디렉토리(Index)로 돌아가기]]\n\n");
        page.append("## 참여한 모든 분대\n");
        page.append(body.as_str());
        page.append("\n\n");
        page.append("## 종합 전투 손실\n");
        page.append("- 우리팀 (Side A) 총 사망자: ");
        push_decimal(&mut page, self.total_deaths_a as u64);
        page.append("\n- 상대팀 (Side B) 총 사망자: ");
        push_decimal(&mut page, self.total_deaths_b as u64);
        page.append("\n\n## 종합 탄약 소모\n");
        page.append("- 우리팀 (Side A) 총 탄약 소모: ");
        push_decimal(&mut page, self.total_ammo_a as u64);
        page.append("\n- 상대팀 (Side B) 총 탄약 소모: ");
        push_decimal(&mut page, self.total_ammo_b as u64);
        page.append("\n\n## 전체 전투 단계 (Phases)\n");
        let ghost head = page@;
        let mut p: usize = 0;
        while p < self.phase
            invariant
                p <= self@.phase,
                flow_pages@.len() == self@.phase,
                page@ == head + phase_links_text(flow_pages@.subrange(0, p as int)),
            decreases self@.phase - p,
        {
            page.append("- [[phases/Phase_");
            push_decimal(&mut page, (p + 1) as u64);
            page.append("|Phase ");
            push_decimal(&mut page, (p + 1) as u64);
            page.append("]]\n");
            if flow_pages[p] {
                page.append("  - [[phases/Phase_");
                push_decimal(&mut page, (p + 1) as u64);
                page.append(".canvas|Phase ");
                push_decimal(&mut page, (p + 1) as u64);
                page.append(" 지원-보급 플로우 (캔버스)]]\n");
            }
            proof {
                let next = flow_pages@.subrange(0, p + 1);
                assert(next.drop_last() =~= flow_pages@.subrange(0, p as int));
                assert(next.last() == flow_pages@[p as int]);
                assert(page@ =~= head + phase_links_text(next));
            }
            p = p + 1;
        }
        assert(flow_pages@.subrange(0, p as int) =~= flow_pages@);
        assert(page@ =~= total_summary_text(self@, end_frame, reason@, flow_pages@));
        page
    }

    /// Ends the battle at `end_frame` for `reason`: closes the current phase
    /// as [`BattleJournal::close_phase`] does (with `reason` as its trigger),
    /// then writes the summary page, which links the canvas of every phase
    /// that drew one, and the closing lines of the index page. The journal
    /// is left as closing the phase leaves it.
    pub fn end_game(&mut self, end_frame: u64, reason: &str, order: &Vec<usize>) -> (end: BattleEnd)
        requires
            journal_well_formed(old(self)@),
            old(self)@.phase < usize::MAX,
            is_phase_order(old(self)@, order@),
        ensures
            journal_well_formed(final(self)@),
            final(self)@ == phase_closed(old(self)@, end_frame),
            totals_step(TotalsEffect::Unchanged, old(self)@, final(self)@),
            phase_record_is(end.phase, old(self)@, end_frame, reason@, order@),
            end.summary@ == total_summary_text(final(self)@, end_frame, reason@, canvas_flags(final(self)@)),
            end.index_heading@ == "\n## 종합 결과"@,
            end.index_link@ == "- [[total/total|전체 종합 기록 보기]] (Reason: "@ + reason@ + ")"@,
    {
        let phase = self.close_phase(end_frame, reason, order);
        let summary = self.total_summary(end_frame, reason);
        let (index_heading, index_link) = closing_index_lines(reason);
        BattleEnd { phase, summary, index_heading, index_link }
    }

    /// Whether the page of a squad was already made.
    pub fn has_squad_page(&self, squad: usize, side: Side) -> (found: bool)
        ensures
            found == self@.squad_pages.contains((squad, side)),
    {
        let mut i: usize = 0;
        while i < self.squad_pages.len()
            invariant
                i <= self.squad_pages@.len(),
                forall|k: int| 0 <= k < i ==> self.squad_pages@[k] != (squad, side),
            decreases self.squad_pages@.len() - i,
        {
            if self.squad_pages[i].0 == squad && self.squad_pages[i].1 == side {
                assert(self.squad_pages@[i as int] == (squad, side));
                return true;
            }
            i = i + 1;
        }
        false
    }

    /// Makes sure a squad has a page: the first time a squad is seen, its
    /// page is registered and its contents returned; afterwards `None`.
    pub fn ensure_squad_page(&mut self, squad: usize, side: Side) -> (page: Option<String>)
        requires
            journal_well_formed(old(self)@),
        ensures
            totals_step(TotalsEffect::Unchanged, old(self)@, final(self)@),
            journal_well_formed(final(self)@),
            old(self)@.squad_pages.contains((squad, side)) ==> page is None && final(self)@
                == old(self)@,
            !old(self)@.squad_pages.contains((squad, side)) ==> {
                &&& page is Some
                &&& page->0@ == squad_page_text(squad, side, old(self)@.start_frame)
                &&& final(self)@ == (JournalView {
                    squad_pages: old(self)@.squad_pages.push((squad, side)),
                    ..old(self)@
                })
            },
    {
        if self.has_squad_page(squad, side) {
            return None;
        }
        self.squad_pages.push((squad, side));
        proof {
            let p = self.squad_pages@;
            assert forall|i: int, j: int| 0 <= i < j < p.len() implies p[i] != p[j] by {
                if j == p.len() - 1 {
                    assert(old(self)@.squad_pages[i] == p[i]);
                }
            }
        }
        Some(squad_page(squad, side, self.start_frame))
    }
}

/// What an engagement adds to squad pages.
pub struct EngagementLines {
    /// The line for the attacker's page (also kept in the phase's lines).
    pub attacker_line: String,
    /// The line for the defender's page.
    pub defender_line: String,
    /// The defender's new page, when it had none.
    pub defender_page: Option<String>,
}

/// What issuing an order produces.
pub struct NewOrder {
    pub order_id: usize,
    /// The contents of the order's page.
    pub page: String,
    /// The squad's new page, when it had none.
    pub squad_page: Option<String>,
    /// The line that links the order from the phase page.
    pub phase_line: String,
}

/// Whether a map event holds the given data.
pub open spec fn event_is(
    e: CanvasEventLog,
    frame: u64,
    side: Side,
    squad: usize,
    kind: EventKind,
    sector: Seq<char>,
    desc: Seq<char>,
    target: Option<usize>,
) -> bool {
    &&& e.frame == frame
    &&& e.side == side
    &&& e.squad_id == squad
    &&& e.event_type == kind
    &&& e.sector@ == sector
    &&& e.desc@ == desc
    &&& e.target_squad == target
}

/// The link to the current order, or `N/A` when none was issued.
pub open spec fn order_link_text(order: Option<usize>) -> Seq<char> {
    match order {
        Some(id) => "[[Order_"@ + decimal(id as nat) + "]]"@,
        None => "N/A"@,
    }
}

/// The link to the current order.
pub fn order_link(order: Option<usize>) -> (link: String)
    ensures
        link@ == order_link_text(order),
{
    let mut link = String::new();
    match order {
        Some(id) => {
            link.append("[[Order_");
            push_decimal(&mut link, id as u64);
            link.append("]]");
        },
        None => {
            link.append("N/A");
        },
    }
    assert(link@ =~= order_link_text(order));
    link
}

/// The line recording a change of sector.
pub open spec fn movement_line_text(
    frame: u64,
    squad: usize,
    side: Side,
    from: Seq<char>,
    to: Seq<char>,
    terrain: Seq<char>,
    is_indoor: bool,
    distance: Seq<char>,
    posture: Seq<char>,
    order: Option<usize>,
) -> Seq<char> {
    "- [Frame "@ + decimal(frame as nat) + "] "@ + squad_link(squad as nat, side) + ": 섹터 이동: "@
        + from + " -> "@ + to + " (진입 지형: "@ + terrain + ", 환경: "@ + environment_text(is_indoor)
        + ", 자세: "@ + posture + ", 누적 이동 거리: "@ + distance + "m) (명령: "@ + order_link_text(
        order,
    ) + ")"@
}

/// The map text of a change of sector.
pub open spec fn movement_desc_text(from: Seq<char>, to: Seq<char>) -> Seq<char> {
    "🏃 이동: "@ + from + " -> "@ + to
}

/// The line recording an engagement, for the attacker.
pub open spec fn engagement_line_text(
    frame: u64,
    squad: usize,
    side: Side,
    target_squad: usize,
    target_side: Side,
    grid: Seq<char>,
    sector: Seq<char>,
    count: usize,
    terrain: Seq<char>,
    is_indoor: bool,
    posture: Seq<char>,
    threat: Seq<char>,
    order: Option<usize>,
) -> Seq<char> {
    "- [Frame "@ + decimal(frame as nat) + "] "@ + squad_link(squad as nat, side) + " → "@ + squad_link(
        target_squad as nat,
        target_side,
    ) + " 교전: 대상 위치: "@ + grid + " (섹터: "@ + sector + "), 병력: "@ + decimal(count as nat)
        + "명 (지형: "@ + terrain + ", 환경: "@ + environment_text(is_indoor) + ", 자세: "@ + posture
        + ") [위협도: "@ + threat + "] (명령: "@ + order_link_text(order) + ")"@
}

/// The map text of an engagement.
pub open spec fn engagement_desc_text(target_squad: usize, count: usize, threat: Seq<char>) -> Seq<
    char,
> {
    "💥 교전 개시\n목표: 분대 "@ + decimal(target_squad as nat) + " ("@ + decimal(count as nat)
        + "명)\n위협도: "@ + threat
}

/// The line recording an engagement, for the defender.
pub open spec fn defender_line_text(
    frame: u64,
    squad: usize,
    side: Side,
    target_squad: usize,
    target_side: Side,
) -> Seq<char> {
    "- [Frame "@ + decimal(frame as nat) + "] "@ + squad_link(target_squad as nat, target_side)
        + " 에게 교전당함 (공격자: "@ + squad_link(squad as nat, side) + ")"@
}

/// The line recording a death.
pub open spec fn death_line_text(
    frame: u64,
    squad: usize,
    side: Side,
    grid: Seq<char>,
    sector: Seq<char>,
    terrain: Seq<char>,
    is_indoor: bool,
    cause: Seq<char>,
) -> Seq<char> {
    "- [Frame "@ + decimal(frame as nat) + "] 병사 "@ + squad_link(squad as nat, side) + " 사망 | 위치: "@
        + grid + " (섹터: "@ + sector + ") (지형: "@ + terrain + ", 환경: "@ + environment_text(
        is_indoor,
    ) + ") | 원인: "@ + cause
}

/// The map text of a death.
pub open spec fn death_desc_text(cause: Seq<char>) -> Seq<char> {
    "💀 사망\n원인: "@ + cause
}

/// The contents of an order's page.
pub open spec fn order_page_text(
    id: usize,
    command: Seq<char>,
    squad: usize,
    side: Side,
    frame: u64,
    phase: usize,
) -> Seq<char> {
    "---\ntitle: Order #"@ + decimal(id as nat) + "\ntags: [Side_"@ + side_text(side)
        + "]\nsquad: \"[["@ + squad_name(squad as nat, side) + "]]\"\ncommand: \""@ + command
        + "\"\nframe: "@ + decimal(frame as nat) + "\nphase: \"[[Phase_"@ + decimal(phase as nat)
        + "]]\"\n---\n\n# Order #"@ + decimal(id as nat) + "\n\n## 실행 명령\n- 명령어: "@ + command
        + "\n- 대상 분대: "@ + squad_link(squad as nat, side) + "\n- 실행 프레임: "@ + decimal(
        frame as nat,
    ) + "\n\n## 관련 로그\n"@
}

/// The line linking an order from the phase page.
pub open spec fn order_phase_line_text(id: usize, frame: u64) -> Seq<char> {
    "- [[Order_"@ + decimal(id as nat) + "]] 실행됨 (Frame: "@ + decimal(frame as nat) + ")"@
}


/// Each text followed by a line break.
pub open spec fn lines_text(s: Seq<Seq<char>>) -> Seq<char>
    decreases s.len(),
{
    if s.len() == 0 {
        Seq::empty()
    } else {
        lines_text(s.drop_last()) + s.last() + "\n"@
    }
}

/// The lines of a squad, if it has any.
pub open spec fn log_of(logs: Seq<SquadLog>, squad: usize) -> Option<SquadLog>
    decreases logs.len(),
{
    if logs.len() == 0 {
        None
    } else if logs[0].squad == squad {
        Some(logs[0])
    } else {
        log_of(logs.drop_first(), squad)
    }
}

/// The section of the phase page on one squad: a heading with the squad's
/// link, then its movement lines, then its engagement lines.
pub open spec fn squad_section_text(v: JournalView, squad: usize) -> Seq<char> {
    "\n### "@ + squad_link(squad as nat, camp_of_squad(v.squad_sides, squad)) + " 동선 및 교전\n"@
        + match log_of(v.squad_logs, squad) {
        Some(l) => lines_text(views(l.movements@)) + lines_text(views(l.engagements@)),
        None => Seq::empty(),
    }
}

/// The sections of the given squads, in the given order.
pub open spec fn sections_text(v: JournalView, order: Seq<usize>) -> Seq<char>
    decreases order.len(),
{
    if order.len() == 0 {
        Seq::empty()
    } else {
        sections_text(v, order.drop_last()) + squad_section_text(v, order.last())
    }
}

/// The quoted page links of the squads of the phase, for the page header.
pub open spec fn header_items(v: JournalView) -> Seq<Seq<char>> {
    v.squad_logs.map_values(
        |l: SquadLog|
            "\"[["@ + squad_name(l.squad as nat, camp_of_squad(v.squad_sides, l.squad)) + "]]\""@,
    )
}

/// The coloured links of the squads of the phase, for the page body.
pub open spec fn body_items(v: JournalView) -> Seq<Seq<char>> {
    v.squad_logs.map_values(
        |l: SquadLog| squad_link(l.squad as nat, camp_of_squad(v.squad_sides, l.squad)),
    )
}

/// A camp's losses: its death lines, or a line saying there were none.
pub open spec fn losses_text(s: Seq<Seq<char>>) -> Seq<char> {
    if s.len() == 0 {
        "- 사상자 없음\n"@
    } else {
        lines_text(s)
    }
}

/// A camp's losses section lists every death of the phase, in the order
/// they were recorded, one line each: a single death gives its own line,
/// and one more death adds its line after all those already listed.
pub proof fn law_losses_list_every_death(s: Seq<Seq<char>>, line: Seq<char>)
    ensures
        losses_text(seq![line]) == line + "\n"@,
        s.len() > 0 ==> losses_text(s.push(line)) == losses_text(s) + line + "\n"@,
        losses_text(s.push(line)).len() == (if s.len() == 0 {
            0
        } else {
            losses_text(s).len() as int
        }) + line.len() + 1,
{
    assert(seq![line].drop_last() =~= Seq::<Seq<char>>::empty());
    assert(s.push(line).drop_last() =~= s);
    assert(lines_text(Seq::<Seq<char>>::empty()) == Seq::<char>::empty());
    assert(Seq::<char>::empty() + line + "\n"@ =~= line + "\n"@);
    reveal_strlit("\n");
    if s.len() == 0 {
        assert(s.push(line) =~= seq![line]);
    }
}

/// The page of a finished phase. The squad lists of the header and of the
/// body are each sorted as texts; the records of each squad come in the
/// order `order` gives.
pub open spec fn phase_report_text(
    v: JournalView,
    end_frame: u64,
    trigger: Seq<char>,
    order: Seq<usize>,
) -> Seq<char> {
    "---\nphase: "@ + decimal(v.phase as nat) + "\nstart_frame: "@ + decimal(v.start_frame as nat)
        + "\nend_frame: "@ + decimal(end_frame as nat) + "\ntrigger_event: \""@ + trigger
        + "\"\nsquads: ["@ + join_texts(sort_texts(header_items(v)), ", "@) + "]\n---\n\n"@
        + "# Phase "@ + decimal(v.phase as nat) + "\n\n"@
        + "[[../index|상위 디렉토리(Index)로 돌아가기]]\n\n"@ + "## 참여 분대\n"@ + join_texts(
        sort_texts(body_items(v)),
        ", "@,
    ) + "\n\n"@ + "## 지휘관 동선 및 교전 기록\n"@ + (if v.squad_logs.len() == 0 {
        "- 해당 페이즈에 기록된 동선 및 교전이 없습니다.\n"@
    } else {
        sections_text(v, order)
    }) + "\n## 전투 손실 (시간순)\n"@ + "### 우리팀 (Side A)\n"@ + losses_text(views(v.deaths_a))
        + "\n### 상대팀 (Side B)\n"@ + losses_text(views(v.deaths_b)) + "\n## 탄약 소모\n"@
        + "- 우리팀 (Side A) 탄약 소모량: "@ + decimal(v.ammo_a as nat) + "\n"@
        + "- 상대팀 (Side B) 탄약 소모량: "@ + decimal(v.ammo_b as nat) + "\n"@
}

/// The first squad log of `squad` is at `k`.
pub proof fn lemma_log_of_index(logs: Seq<SquadLog>, squad: usize, k: int)
    requires
        0 <= k < logs.len(),
        logs[k].squad == squad,
        forall|j: int| 0 <= j < k ==> #[trigger] logs[j].squad != squad,
    ensures
        log_of(logs, squad) == Some(logs[k]),
    decreases logs.len(),
{
    if k > 0 {
        let t = logs.drop_first();
        assert forall|j: int| 0 <= j < k - 1 implies #[trigger] t[j].squad != squad by {
            assert(t[j] == logs[j + 1]);
        }
        lemma_log_of_index(t, squad, k - 1);
    }
}

/// A squad with no log has none.
pub proof fn lemma_log_of_none(logs: Seq<SquadLog>, squad: usize)
    requires
        forall|j: int| 0 <= j < logs.len() ==> #[trigger] logs[j].squad != squad,
    ensures
        log_of(logs, squad) is None,
    decreases logs.len(),
{
    if logs.len() > 0 {
        let t = logs.drop_first();
        assert forall|j: int| 0 <= j < t.len() implies #[trigger] t[j].squad != squad by {
            assert(t[j] == logs[j + 1]);
        }
        lemma_log_of_none(t, squad);
    }
}

/// Appends each string of `v` followed by a line break.
pub fn push_lines(out: &mut String, v: &Vec<String>)
    ensures
        final(out)@ == old(out)@ + lines_text(views(v@)),
{
    let mut i: usize = 0;
    while i < v.len()
        invariant
            i <= v@.len(),
            out@ == old(out)@ + lines_text(views(v@).subrange(0, i as int)),
        decreases v@.len() - i,
    {
        out.append(v[i].as_str());
        out.append("\n");
        proof {
            let next = views(v@).subrange(0, i + 1);
            assert(next.drop_last() =~= views(v@).subrange(0, i as int));
            assert(out@ =~= old(out)@ + lines_text(next));
        }
        i = i + 1;
    }
    assert(views(v@).subrange(0, v@.len() as int) =~= views(v@));
}

/// Appends a camp's losses.
fn push_losses(out: &mut String, deaths: &Vec<String>)
    ensures
        final(out)@ == old(out)@ + losses_text(views(deaths@)),
{
    if deaths.len() == 0 {
        out.append("- 사상자 없음\n");
    } else {
        push_lines(out, deaths);
    }
}

/// The squads with records in the current phase, in increasing order.
pub open spec fn phase_squad_ids(v: JournalView) -> Seq<usize> {
    v.squad_logs.map_values(|l: SquadLog| l.squad)
}

/// Whether `order` lists each squad with records in the current phase
/// exactly once: as many entries as there are such squads, none repeated,
/// each one of them.
pub open spec fn is_phase_order(v: JournalView, order: Seq<usize>) -> bool {
    &&& order.len() == v.squad_logs.len()
    &&& order.no_duplicates()
    &&& forall|k: int| 0 <= k < order.len() ==> phase_squad_ids(v).contains(#[trigger] order[k])
}

/// A phase order names every squad with records in the phase: as the page
/// gives one section per entry of the order, each such squad gets exactly
/// one section.
pub proof fn law_phase_order_covers_every_squad(v: JournalView, order: Seq<usize>, s: usize)
    requires
        journal_well_formed(v),
        is_phase_order(v, order),
        phase_squad_ids(v).contains(s),
    ensures
        order.contains(s),
{
    broadcast use vstd::seq_lib::group_seq_properties;

    let ids = phase_squad_ids(v);
    assert(ids.no_duplicates()) by {
        assert forall|i: int, j: int|
            0 <= i < ids.len() && 0 <= j < ids.len() && i != j implies ids[i] != ids[j] by {
            if i < j {
                assert(v.squad_logs[i].squad < v.squad_logs[j].squad);
            } else {
                assert(v.squad_logs[j].squad < v.squad_logs[i].squad);
            }
        }
    }
    if !order.contains(s) {
        ids.unique_seq_to_set();
        order.unique_seq_to_set();
        let rest = ids.to_set().remove(s);
        assert(order.to_set().subset_of(rest)) by {
            assert forall|x: usize| order.to_set().contains(x) implies rest.contains(x) by {
                let k = choose|k: int| 0 <= k < order.len() && order[k] == x;
                assert(ids.contains(order[k]));
            }
        }
        vstd::set_lib::lemma_len_subset(order.to_set(), rest);
        assert(ids.to_set().contains(s));
    }
}

/// What closing a phase produces, as [`BattleJournal::close_phase`] states it
/// for a journal `v`.
pub open spec fn phase_record_is(
    record: PhaseRecord,
    v: JournalView,
    end_frame: u64,
    trigger: Seq<char>,
    order: Seq<usize>,
) -> bool {
    let drawn = v.requests.len() > 0 || v.assignments.len() > 0 || v.events.len() > 0;
    &&& record.page@ == phase_report_text(v, end_frame, trigger, order)
    &&& match phase_canvas_spec(
        v.phase,
        v.start_frame,
        end_frame,
        v.requests,
        v.assignments,
        v.supplies,
        v.events,
        v.squad_sides,
    ) {
        None => record.canvas is None,
        Some((nv, links)) => record.canvas is Some && nodes_are(record.canvas->0.nodes@, nv)
            && edges_are(record.canvas->0.edges@, links),
    }
    &&& record.index_line@ == phase_index_line_text(v.phase, trigger)
    &&& drawn ==> record.canvas_index_line is Some && record.canvas_index_line->0@
        == canvas_index_line_text(v.phase)
    &&& !drawn ==> record.canvas_index_line is None
}

/// The journal once its phase closed at `end_frame`: the next phase starts
/// there with no squad logs, deaths, rounds or support traffic, and the
/// closed phase is recorded as having drawn a canvas or not; battle totals,
/// camps, pages, orders and map events stay.
pub open spec fn phase_closed(v: JournalView, end_frame: u64) -> JournalView {
    JournalView {
        phase: (v.phase + 1) as usize,
        start_frame: end_frame,
        squad_logs: Seq::empty(),
        deaths_a: Seq::empty(),
        deaths_b: Seq::empty(),
        ammo_a: 0,
        ammo_b: 0,
        requests: Seq::empty(),
        assignments: Seq::empty(),
        supplies: Seq::empty(),
        canvases: v.canvases.push(
            phase_canvas_spec(
                v.phase,
                v.start_frame,
                end_frame,
                v.requests,
                v.assignments,
                v.supplies,
                v.events,
                v.squad_sides,
            ) is Some,
        ),
        ..v
    }
}

/// Whether each phase `1..=v.phase` has a canvas to link: those closed with
/// one, by phase.
pub open spec fn canvas_flags(v: JournalView) -> Seq<bool> {
    Seq::new(v.phase as nat, |i: int| i < v.canvases.len() && v.canvases[i])
}

/// What a journal call does to the battle totals.
#[derive(Clone, Copy, Debug, PartialEq, Eq, Structural)]
pub enum TotalsEffect {
    /// One death of a soldier of the camp.
    Death(Side),
    /// Rounds fired by the camp.
    Rounds(Side, usize),
    /// The totals stay.
    Unchanged,
}

/// Whether going from journal `a` to journal `b` changes the battle totals
/// as `e` says: a death adds one to its camp's deaths, rounds add to their
/// camp's rounds (a camp other than A or B counts for neither), and nothing
/// else moves them.
pub open spec fn totals_step(e: TotalsEffect, a: JournalView, b: JournalView) -> bool {
    let (da, db, ra, rb) = match e {
        TotalsEffect::Death(side) => (
            if side == Side::A { 1int } else { 0 },
            if side == Side::B { 1int } else { 0 },
            0int,
            0int,
        ),
        TotalsEffect::Rounds(side, n) => (
            0,
            0,
            if side == Side::A { n as int } else { 0 },
            if side == Side::B { n as int } else { 0 },
        ),
        TotalsEffect::Unchanged => (0, 0, 0, 0),
    };
    &&& b.total_deaths_a == a.total_deaths_a + da
    &&& b.total_deaths_b == a.total_deaths_b + db
    &&& b.total_ammo_a == a.total_ammo_a + ra
    &&& b.total_ammo_b == a.total_ammo_b + rb
}

/// The deaths of camp `side` among the effects.
pub open spec fn deaths_in(effects: Seq<TotalsEffect>, side: Side) -> int
    decreases effects.len(),
{
    if effects.len() == 0 {
        0
    } else {
        deaths_in(effects.drop_last(), side) + if effects.last() == TotalsEffect::Death(side) {
            1int
        } else {
            0
        }
    }
}

/// The rounds fired by camp `side` among the effects.
pub open spec fn rounds_in(effects: Seq<TotalsEffect>, side: Side) -> int
    decreases effects.len(),
{
    if effects.len() == 0 {
        0
    } else {
        rounds_in(effects.drop_last(), side) + match effects.last() {
            TotalsEffect::Rounds(s, n) => if s == side {
                n as int
            } else {
                0
            },
            _ => 0,
        }
    }
}

/// The battle totals span every phase: over any run of journal calls
/// (each stating its effect on the totals, closing phases among them), the
/// deaths and rounds of camps A and B at the end are those at the start
/// plus every death and every round the calls recorded; closing a phase
/// resets none of them.
pub proof fn law_totals_span_phases(views: Seq<JournalView>, effects: Seq<TotalsEffect>)
    requires
        views.len() == effects.len() + 1,
        forall|i: int| 0 <= i < effects.len() ==> totals_step(#[trigger] effects[i], views[i], views[i + 1]),
    ensures
        views.last().total_deaths_a == views[0].total_deaths_a + deaths_in(effects, Side::A),
        views.last().total_deaths_b == views[0].total_deaths_b + deaths_in(effects, Side::B),
        views.last().total_ammo_a == views[0].total_ammo_a + rounds_in(effects, Side::A),
        views.last().total_ammo_b == views[0].total_ammo_b + rounds_in(effects, Side::B),
    decreases effects.len(),
{
    if effects.len() > 0 {
        let n = effects.len() - 1;
        law_totals_span_phases(views.drop_last(), effects.drop_last());
        assert(totals_step(effects[n], views[n], views[n + 1]));
        assert(views.drop_last().last() == views[n]);
    }
}

/// What ending the battle produces: the page (and canvas) of the phase it
/// closes, the summary page and the two lines added to the index page.
pub struct BattleEnd {
    pub phase: PhaseRecord,
    pub summary: String,
    pub index_heading: String,
    pub index_link: String,
}

/// What closing a phase produces.
pub struct PhaseRecord {
    /// The phase page.
    pub page: String,
    /// The phase canvas, when there is anything to draw.
    pub canvas: Option<CanvasGraph>,
    /// The line linking the phase page from the index page.
    pub index_line: String,
    /// The line linking the phase canvas from the index page, when linked.
    pub canvas_index_line: Option<String>,
}

/// The index line of a phase page.
pub open spec fn phase_index_line_text(phase: usize, trigger: Seq<char>) -> Seq<char> {
    "- [[phases/Phase_"@ + decimal(phase as nat) + "|Phase "@ + decimal(phase as nat)
        + " 기록 보기]] (Trigger: "@ + trigger + ")"@
}

/// The index line of a phase canvas.
pub open spec fn canvas_index_line_text(phase: usize) -> Seq<char> {
    "  - [[phases/Phase_"@ + decimal(phase as nat) + ".canvas|Phase "@ + decimal(phase as nat)
        + " 통합 전황 지도 및 지원 플로우 (캔버스)]]"@
}

/// The quoted page links of all squads that have a page.
pub open spec fn page_header_items(pages: Seq<(usize, Side)>) -> Seq<Seq<char>> {
    pages.map_values(|p: (usize, Side)| "\"[["@ + squad_name(p.0 as nat, p.1) + "]]\""@)
}

/// The coloured links of all squads that have a page.
pub open spec fn page_body_items(pages: Seq<(usize, Side)>) -> Seq<Seq<char>> {
    pages.map_values(|p: (usize, Side)| squad_link(p.0 as nat, p.1))
}

/// The links to the phase pages `1..=flow.len()`, each followed by a link
/// to the phase's canvas (`phases/Phase_{p}.canvas`) where `flow` says one
/// was written.
pub open spec fn phase_links_text(flow: Seq<bool>) -> Seq<char>
    decreases flow.len(),
{
    if flow.len() == 0 {
        Seq::empty()
    } else {
        let p = flow.len() as nat;
        phase_links_text(flow.drop_last()) + "- [[phases/Phase_"@ + decimal(p) + "|Phase "@ + decimal(p)
            + "]]\n"@ + if flow.last() {
            "  - [[phases/Phase_"@ + decimal(p) + ".canvas|Phase "@ + decimal(p)
                + " 지원-보급 플로우 (캔버스)]]\n"@
        } else {
            Seq::empty()
        }
    }
}

/// The summary page of a battle.
pub open spec fn total_summary_text(
    v: JournalView,
    end_frame: u64,
    reason: Seq<char>,
    flow: Seq<bool>,
) -> Seq<char> {
    "---\n"@ + "phase: total\n"@ + "end_frame: "@ + decimal(end_frame as nat) + "\nend_reason: \""@
        + reason + "\"\ntotal_squads: ["@ + join_texts(page_header_items(v.squad_pages), ", "@)
        + "]\n---\n\n"@ + "# Total Summary\n\n"@ + "[[../index|상위 디렉토리(Index)로 돌아가기]]\n\n"@
        + "## 참여한 모든 분대\n"@ + join_texts(page_body_items(v.squad_pages), ", "@) + "\n\n"@
        + "## 종합 전투 손실\n"@ + "- 우리팀 (Side A) 총 사망자: "@ + decimal(v.total_deaths_a as nat)
        + "\n- 상대팀 (Side B) 총 사망자: "@ + decimal(v.total_deaths_b as nat) + "\n\n## 종합 탄약 소모\n"@
        + "- 우리팀 (Side A) 총 탄약 소모: "@ + decimal(v.total_ammo_a as nat) + "\n- 상대팀 (Side B) 총 탄약 소모: "@
        + decimal(v.total_ammo_b as nat) + "\n\n## 전체 전투 단계 (Phases)\n"@ + phase_links_text(flow)
}

/// The lines added to the index page when the battle ends.
pub fn closing_index_lines(reason: &str) -> (lines: (String, String))
    ensures
        lines.0@ == "\n## 종합 결과"@,
        lines.1@ == "- [[total/total|전체 종합 기록 보기]] (Reason: "@ + reason@ + ")"@,
{
    let mut first = String::new();
    first.append("\n## 종합 결과");
    let mut second = String::new();
    second.append("- [[total/total|전체 종합 기록 보기]] (Reason: ");
    second.append(reason);
    second.append(")");
    assert(first@ =~= "\n## 종합 결과"@);
    assert(second@ =~= "- [[total/total|전체 종합 기록 보기]] (Reason: "@ + reason@ + ")"@);
    (first, second)
}

/// The first contents of the index page.
pub fn index_preamble() -> (text: &'static str)
    ensures
        text@ == "---\ntitle: Battle Log Index\n---\n\n# 전장 종합 기록 (Battle Logs)\n\n옵시디언 위키 링크를 통해 각 페이즈(Phase)별 세부 기록을 확인할 수 있습니다.\n\n## Phases\n"@,
{
    "---\ntitle: Battle Log Index\n---\n\n# 전장 종합 기록 (Battle Logs)\n\n옵시디언 위키 링크를 통해 각 페이즈(Phase)별 세부 기록을 확인할 수 있습니다.\n\n## Phases\n"
}

/// The graph settings of the journal's vault: pages of camp A in the
/// colour of camp A, pages of camp B in the colour of camp B.
pub fn graph_settings() -> (text: &'static str)
    ensures
        text@ == "{\n  \"colorGroups\": [\n    {\n      \"query\": \"tag:#Side_A OR file:A_\",\n      \"color\": {\n        \"a\": 1.0,\n        \"rgb\": 4951007\n      }\n    },\n    {\n      \"query\": \"tag:#Side_B OR file:B_\",\n      \"color\": {\n        \"a\": 1.0,\n        \"rgb\": 14633803\n      }\n    }\n  ]\n}"@,
{
    "{\n  \"colorGroups\": [\n    {\n      \"query\": \"tag:#Side_A OR file:A_\",\n      \"color\": {\n        \"a\": 1.0,\n        \"rgb\": 4951007\n      }\n    },\n    {\n      \"query\": \"tag:#Side_B OR file:B_\",\n      \"color\": {\n        \"a\": 1.0,\n        \"rgb\": 14633803\n      }\n    }\n  ]\n}"
}

/// Squad pages are made once: registering a squad's page twice is the same
/// as registering it once, and afterwards the page is listed.
pub proof fn law_pages_made_once(pages: Seq<(usize, Side)>, squad: usize, side: Side)
    ensures
        ({
            let once = if pages.contains((squad, side)) {
                pages
            } else {
                pages.push((squad, side))
            };
            let twice = if once.contains((squad, side)) {
                once
            } else {
                once.push((squad, side))
            };
            &&& once.contains((squad, side))
            &&& twice == once
            &&& pages_unique(pages) ==> pages_unique(once)
        }),
{
    let once = if pages.contains((squad, side)) {
        pages
    } else {
        pages.push((squad, side))
    };
    if !pages.contains((squad, side)) {
        assert(once[pages.len() as int] == (squad, side));
        assert forall|i: int, j: int| 0 <= i < j < once.len() && pages_unique(pages) implies once[i] != once[j] by {
            if j == pages.len() {
                assert(once[i] == pages[i]);
            }
        }
    }
}

/// Adding a line keeps every earlier line of every squad, in order: the
/// squad's earlier lines come first in its new lines, and the other squads'
/// lines are untouched.
pub proof fn law_lines_keep_order(
    old: Seq<SquadLog>,
    new: Seq<SquadLog>,
    squad: usize,
    line: Seq<char>,
    movement: bool,
)
    requires
        line_added(old, new, squad, line, movement),
    ensures
        forall|k: int|
            #![trigger old[k]]
            0 <= k < old.len() ==> exists|j: int|
                #![trigger new[j]]
                0 <= j < new.len() && new[j].squad == old[k].squad && (if old[k].squad
                    == squad {
                    views(old[k].movements@).is_prefix_of(views(new[j].movements@))
                        && views(old[k].engagements@).is_prefix_of(views(new[j].engagements@))
                } else {
                    new[j] == old[k]
                }),
{
    if exists|k: int| 0 <= k < old.len() && old[k].squad == squad {
        let k0 = choose|k: int| 0 <= k < old.len() && old[k].squad == squad;
        assert forall|k: int| #![trigger old[k]] 0 <= k < old.len() implies exists|j: int|
            #![trigger new[j]]
            0 <= j < new.len() && new[j].squad == old[k].squad && (if old[k].squad
                == squad {
                views(old[k].movements@).is_prefix_of(views(new[j].movements@))
                    && views(old[k].engagements@).is_prefix_of(views(new[j].engagements@))
            } else {
                new[j] == old[k]
            }) by {
            if k == k0 {
                if movement {
                    assert(views(old[k].movements@).is_prefix_of(views(old[k].movements@).push(line)));
                    assert(views(old[k].engagements@) == views(new[k].engagements@));
                } else {
                    assert(views(old[k].engagements@).is_prefix_of(views(old[k].engagements@).push(line)));
                    assert(views(old[k].movements@) == views(new[k].movements@));
                }
                assert(new[k].squad == old[k].squad);
            } else {
                assert(new[k] == old[k]);
                if old[k].squad == squad {
                    assert(views(old[k].movements@).is_prefix_of(views(new[k].movements@)));
                    assert(views(old[k].engagements@).is_prefix_of(views(new[k].engagements@)));
                }
            }
        }
    } else {
        let p = choose|p: int|
            0 <= p <= old.len() && {
                &&& new.len() == old.len() + 1
                &&& forall|j: int| 0 <= j < p ==> new[j] == old[j]
                &&& forall|j: int| p < j < new.len() ==> new[j] == old[j - 1]
                &&& new[p].squad == squad
                &&& if movement {
                    &&& views(new[p].movements@) == seq![line]
                    &&& new[p].engagements@.len() == 0
                } else {
                    &&& new[p].movements@.len() == 0
                    &&& views(new[p].engagements@) == seq![line]
                }
            };
        assert forall|k: int| #![trigger old[k]] 0 <= k < old.len() implies exists|j: int|
            #![trigger new[j]]
            0 <= j < new.len() && new[j].squad == old[k].squad && (if old[k].squad
                == squad {
                views(old[k].movements@).is_prefix_of(views(new[j].movements@))
                    && views(old[k].engagements@).is_prefix_of(views(new[j].engagements@))
            } else {
                new[j] == old[k]
            }) by {
            assert(old[k].squad != squad);
            if k < p {
                assert(new[k] == old[k]);
            } else {
                assert(new[k + 1] == old[k]);
            }
        }
    }
}

/// The contents of a new squad page.
pub open spec fn squad_page_text(squad: usize, side: Side, first_seen: u64) -> Seq<char> {
    let name = squad_name(squad as nat, side);
    "---\ntitle: "@ + name + "\ntags: [Side_"@ + side_text(side) + "]\nfirst_seen: "@ + decimal(
        first_seen as nat,
    ) + "\n---\n\n# "@ + name
        + "\n\n## 소속 병사\n\n## 참여한 전투 (Phases)\n\n## 실행한 명령 (Orders)\n"@
}

/// The contents of a new squad page.
pub fn squad_page(squad: usize, side: Side, first_seen: u64) -> (page: String)
    ensures
        page@ == squad_page_text(squad, side, first_seen),
{
    let name = format_squad(squad, side);
    let mut page = String::new();
    page.append("---\ntitle: ");
    page.append(name.as_str());
    page.append("\ntags: [Side_");
    page.append(side_label(side));
    page.append("]\nfirst_seen: ");
    push_decimal(&mut page, first_seen);
    page.append("\n---\n\n# ");
    page.append(name.as_str());
    page.append("\n\n## 소속 병사\n\n## 참여한 전투 (Phases)\n\n## 실행한 명령 (Orders)\n");
    assert(page@ =~= squad_page_text(squad, side, first_seen));
    page
}

} // verus!
