use std::collections::HashMap;

use vstd::prelude::*;

use crate::journal::{CanvasEventLog, EventKind, SupportAssignmentLog, SupportRequestLog, SupportSupplyLog, camp_of_squad, event_kind_label, event_kind_text};
use crate::naming::{node_color, node_color_text, urgency_color, urgency_color_text};
use crate::side::{side_label, side_text, Side};
use crate::text::{decimal, push_decimal, same_text, views};

verus! {

broadcast use vstd::std_specs::hash::group_hash_axioms;

/// A node of an Obsidian canvas. Nodes placed in a map sector carry the
/// sector's name, and their coordinates are offsets from the sector's
/// corner; other nodes have absolute coordinates.
#[derive(Debug)]
pub struct CanvasNode {
    pub id: String,
    pub node_type: String,
    pub text: String,
    /// Whether `text` is written as the node's label (group nodes) rather
    /// than as its text.
    pub text_is_label: bool,
    pub sector: Option<String>,
    pub x: i128,
    pub y: i128,
    pub width: i128,
    pub height: i128,
    pub color: Option<String>,
    pub file: Option<String>,
    /// Whether the node's background style is `cover`.
    pub cover_background: bool,
}

/// An edge of an Obsidian canvas.
#[derive(Debug)]
pub struct CanvasEdge {
    pub id: String,
    pub from_node: String,
    pub to_node: String,
    pub label: Option<String>,
    /// Whether the edge is of type `arrow`.
    pub arrow: bool,
    pub color: Option<String>,
}

/// The nodes and edges of a canvas.
#[derive(Debug)]
pub struct CanvasGraph {
    pub nodes: Vec<CanvasNode>,
    pub edges: Vec<CanvasEdge>,
}

/// The characters of an optional text.
pub open spec fn opt_text(o: Option<String>) -> Option<Seq<char>> {
    match o {
        Some(s) => Some(s@),
        None => None,
    }
}

/// What a canvas node shows.
pub struct NodeView {
    pub id: Seq<char>,
    pub node_type: Seq<char>,
    pub text: Seq<char>,
    pub text_is_label: bool,
    pub sector: Option<Seq<char>>,
    pub x: int,
    pub y: int,
    pub width: int,
    pub height: int,
    pub color: Option<Seq<char>>,
    pub file: Option<Seq<char>>,
    pub cover_background: bool,
}

/// What a canvas edge links, apart from its id.
pub struct EdgeLink {
    pub from_node: Seq<char>,
    pub to_node: Seq<char>,
    pub label: Option<Seq<char>>,
    pub arrow: bool,
    pub color: Option<Seq<char>>,
    /// Whether the edge is an engagement edge (its id is `edge_eng_<n>`).
    pub engagement: bool,
}

impl CanvasNode {
    pub open spec fn view(&self) -> NodeView {
        NodeView {
            id: self.id@,
            node_type: self.node_type@,
            text: self.text@,
            text_is_label: self.text_is_label,
            sector: opt_text(self.sector),
            x: self.x as int,
            y: self.y as int,
            width: self.width as int,
            height: self.height as int,
            color: opt_text(self.color),
            file: opt_text(self.file),
            cover_background: self.cover_background,
        }
    }
}

/// The id of the `k`-th edge of a canvas (counting from 0).
pub open spec fn edge_id_text(k: nat, engagement: bool) -> Seq<char> {
    if engagement {
        "edge_eng_"@ + decimal(k)
    } else {
        "edge_"@ + decimal(k)
    }
}

/// Every edge of a canvas has an id of its own: edges at different
/// positions never share an id.
pub proof fn law_edge_ids_distinct(j: nat, k: nat, ej: bool, ek: bool)
    requires
        j != k,
    ensures
        edge_id_text(j, ej) != edge_id_text(k, ek),
{
    crate::text::lemma_decimal_digits(j);
    crate::text::lemma_decimal_digits(k);
    let a = edge_id_text(j, ej);
    let b = edge_id_text(k, ek);
    if ej == ek {
        let p: Seq<char> = if ej {
            "edge_eng_"@
        } else {
            "edge_"@
        };
        if a == b {
            assert(a.subrange(p.len() as int, a.len() as int) =~= decimal(j));
            assert(b.subrange(p.len() as int, b.len() as int) =~= decimal(k));
            crate::text::law_decimal_injective(j, k);
        }
    } else {
        reveal_strlit("edge_eng_");
        reveal_strlit("edge_");
        if ej {
            assert(a[5] == 'e');
            assert(b[5] == decimal(k)[0]);
        } else {
            assert(a[5] == decimal(j)[0]);
            assert(b[5] == 'e');
        }
    }
}

/// Whether edge `e`, the `k`-th of its canvas, is the link `l`.
pub open spec fn edge_is(e: CanvasEdge, k: nat, l: EdgeLink) -> bool {
    &&& e.id@ == edge_id_text(k, l.engagement)
    &&& e.from_node@ == l.from_node
    &&& e.to_node@ == l.to_node
    &&& opt_text(e.label) == l.label
    &&& e.arrow == l.arrow
    &&& opt_text(e.color) == l.color
}

/// Whether `edges` are the links `links`, in order.
pub open spec fn edges_are(edges: Seq<CanvasEdge>, links: Seq<EdgeLink>) -> bool {
    &&& edges.len() == links.len()
    &&& forall|k: int| 0 <= k < edges.len() ==> #[trigger] edge_is(edges[k], k as nat, links[k])
}

/// Whether `nodes` show `views`, in order.
pub open spec fn nodes_are(nodes: Seq<CanvasNode>, views: Seq<NodeView>) -> bool {
    &&& nodes.len() == views.len()
    &&& forall|k: int| 0 <= k < nodes.len() ==> #[trigger] nodes[k].view() == views[k]
}

/// A plain text node at absolute coordinates.
pub open spec fn text_node(
    id: Seq<char>,
    text: Seq<char>,
    x: int,
    y: int,
    width: int,
    height: int,
    color: Seq<char>,
) -> NodeView {
    NodeView {
        id,
        node_type: "text"@,
        text,
        text_is_label: false,
        sector: None,
        x,
        y,
        width,
        height,
        color: Some(color),
        file: None,
        cover_background: false,
    }
}

/// A link between two nodes.
pub open spec fn link(
    from_node: Seq<char>,
    to_node: Seq<char>,
    label: Option<Seq<char>>,
    arrow: bool,
) -> EdgeLink {
    EdgeLink { from_node, to_node, label, arrow, color: None, engagement: false }
}

/// The column of a camp on the support flow.
pub open spec fn team_x(side: Side) -> int {
    match side {
        Side::A => -200,
        Side::B => 200,
        Side::All => 0,
    }
}

/// The camp node a squad hangs from (squads of unknown camp hang from camp A).
pub open spec fn team_node_text(side: Side) -> Seq<char> {
    match side {
        Side::B => "team_b"@,
        _ => "team_a"@,
    }
}

/// The id of the node of the phase.
pub open spec fn phase_node_id(phase: usize) -> Seq<char> {
    "phase_"@ + decimal(phase as nat)
}

/// The three nodes every support flow starts with: the phase and the two camps.
pub open spec fn opening_nodes(phase: usize, start: u64, end: u64) -> Seq<NodeView> {
    seq![
        text_node(
            phase_node_id(phase),
            "# Phase "@ + decimal(phase as nat) + ": 지원-보급 플로우\n(프레임: "@ + decimal(start as nat)
                + " ~ "@ + decimal(end as nat) + ")"@,
            -400,
            -200,
            300,
            120,
            "3498db"@,
        ),
        text_node("team_a"@, "🟦 Side A"@, -200, -50, 120, 50, "4b8bdf"@),
        text_node("team_b"@, "🟥 Side B"@, 200, -50, 120, 50, "df4b4b"@),
    ]
}

/// The edges from the phase to the two camps.
pub open spec fn opening_links(phase: usize) -> Seq<EdgeLink> {
    seq![
        link(phase_node_id(phase), "team_a"@, Some("소속"@), false),
        link(phase_node_id(phase), "team_b"@, Some("소속"@), false),
    ]
}

/// The id of the node of a requesting squad.
pub open spec fn requester_node_id(r: SupportRequestLog, phase: usize) -> Seq<char> {
    "squad_"@ + decimal(r.requester_squad as nat) + "_phase_"@ + decimal(phase as nat)
}

/// The id of the node of a request.
pub open spec fn request_node_id(r: SupportRequestLog) -> Seq<char> {
    "request_"@ + decimal(r.requester_squad as nat) + "_"@ + decimal(r.frame as nat)
}

/// The two nodes of the `i`-th request: the requesting squad and the request.
pub open spec fn request_nodes(
    r: SupportRequestLog,
    i: int,
    sides: Map<usize, Side>,
    phase: usize,
) -> Seq<NodeView> {
    let side = camp_of_squad(sides, r.requester_squad);
    let y = 50 + 100 * i;
    seq![
        text_node(
            requester_node_id(r, phase),
            "분대 "@ + decimal(r.requester_squad as nat) + "\n("@ + side_text(side) + "진영)"@,
            team_x(side) - 150,
            y,
            120,
            60,
            node_color_text(Some(side)),
        ),
        text_node(
            request_node_id(r),
            "🚨 지원 요청\n위협도: "@ + r.threat_level_text@ + "\n긴급도: "@ + r.urgency@ + "\n프레임: "@
                + decimal(r.frame as nat),
            team_x(side) + 30,
            y,
            150,
            80,
            urgency_color_text(r.urgency@),
        ),
    ]
}

/// The two edges of a request: squad to request, camp to squad.
pub open spec fn request_links(r: SupportRequestLog, sides: Map<usize, Side>, phase: usize) -> Seq<
    EdgeLink,
> {
    let side = camp_of_squad(sides, r.requester_squad);
    seq![
        link(requester_node_id(r, phase), request_node_id(r), Some("요청 생성"@), true),
        link(team_node_text(side), requester_node_id(r, phase), Some("소속"@), false),
    ]
}

/// The nodes of all requests.
pub open spec fn all_request_nodes(
    rs: Seq<SupportRequestLog>,
    sides: Map<usize, Side>,
    phase: usize,
) -> Seq<NodeView>
    decreases rs.len(),
{
    if rs.len() == 0 {
        Seq::empty()
    } else {
        all_request_nodes(rs.drop_last(), sides, phase) + request_nodes(
            rs.last(),
            rs.len() - 1,
            sides,
            phase,
        )
    }
}

/// The edges of all requests.
pub open spec fn all_request_links(
    rs: Seq<SupportRequestLog>,
    sides: Map<usize, Side>,
    phase: usize,
) -> Seq<EdgeLink>
    decreases rs.len(),
{
    if rs.len() == 0 {
        Seq::empty()
    } else {
        all_request_links(rs.drop_last(), sides, phase) + request_links(rs.last(), sides, phase)
    }
}

/// The first request made by `squad`, if any.
pub open spec fn first_request_of(rs: Seq<SupportRequestLog>, squad: usize) -> Option<SupportRequestLog>
    decreases rs.len(),
{
    if rs.len() == 0 {
        None
    } else if rs[0].requester_squad == squad {
        Some(rs[0])
    } else {
        first_request_of(rs.drop_first(), squad)
    }
}

/// The first assignment made for `squad`, if any.
pub open spec fn first_assignment_for(as_: Seq<SupportAssignmentLog>, squad: usize) -> Option<
    SupportAssignmentLog,
>
    decreases as_.len(),
{
    if as_.len() == 0 {
        None
    } else if as_[0].requester_squad == squad {
        Some(as_[0])
    } else {
        first_assignment_for(as_.drop_first(), squad)
    }
}

/// The request an assignment or a resupply of `squad` is linked from was
/// made by `squad`, and it is the earliest of that squad's requests; there
/// is none exactly when `squad` made no request.
pub proof fn law_link_starts_at_the_squads_first_request(rs: Seq<SupportRequestLog>, squad: usize)
    ensures
        match first_request_of(rs, squad) {
            Some(r) => exists|k: int|
                0 <= k < rs.len() && rs[k] == r && r.requester_squad == squad && forall|j: int|
                    0 <= j < k ==> #[trigger] rs[j].requester_squad != squad,
            None => forall|k: int| 0 <= k < rs.len() ==> #[trigger] rs[k].requester_squad != squad,
        },
    decreases rs.len(),
{
    if rs.len() > 0 {
        law_link_starts_at_the_squads_first_request(rs.drop_first(), squad);
        let t = rs.drop_first();
        if rs[0].requester_squad != squad {
            match first_request_of(t, squad) {
                Some(r) => {
                    let k = choose|k: int|
                        0 <= k < t.len() && t[k] == r && r.requester_squad == squad && forall|j: int|
                            0 <= j < k ==> #[trigger] t[j].requester_squad != squad;
                    assert(rs[k + 1] == r);
                    assert forall|j: int| 0 <= j < k + 1 implies #[trigger] rs[j].requester_squad != squad by {
                        if j > 0 {
                            assert(rs[j] == t[j - 1]);
                        }
                    }
                },
                None => {
                    assert forall|k: int| 0 <= k < rs.len() implies #[trigger] rs[k].requester_squad != squad by {
                        if k > 0 {
                            assert(rs[k] == t[k - 1]);
                        }
                    }
                },
            }
        } else {
            assert(rs[0] == rs[0]);
        }
    }
}

/// The assignment a resupply of `squad` is linked from was made for
/// `squad`, and it is the earliest such; there is none exactly when no
/// assignment was made for `squad`.
pub proof fn law_link_starts_at_the_squads_first_assignment(as_: Seq<SupportAssignmentLog>, squad: usize)
    ensures
        match first_assignment_for(as_, squad) {
            Some(a) => exists|k: int|
                0 <= k < as_.len() && as_[k] == a && a.requester_squad == squad && forall|j: int|
                    0 <= j < k ==> #[trigger] as_[j].requester_squad != squad,
            None => forall|k: int| 0 <= k < as_.len() ==> #[trigger] as_[k].requester_squad != squad,
        },
    decreases as_.len(),
{
    if as_.len() > 0 {
        law_link_starts_at_the_squads_first_assignment(as_.drop_first(), squad);
        let t = as_.drop_first();
        if as_[0].requester_squad != squad {
            match first_assignment_for(t, squad) {
                Some(a) => {
                    let k = choose|k: int|
                        0 <= k < t.len() && t[k] == a && a.requester_squad == squad && forall|j: int|
                            0 <= j < k ==> #[trigger] t[j].requester_squad != squad;
                    assert(as_[k + 1] == a);
                    assert forall|j: int| 0 <= j < k + 1 implies #[trigger] as_[j].requester_squad != squad by {
                        if j > 0 {
                            assert(as_[j] == t[j - 1]);
                        }
                    }
                },
                None => {
                    assert forall|k: int| 0 <= k < as_.len() implies #[trigger] as_[k].requester_squad != squad by {
                        if k > 0 {
                            assert(as_[k] == t[k - 1]);
                        }
                    }
                },
            }
        } else {
            assert(as_[0] == as_[0]);
        }
    }
}

/// The id of the node of a supporting squad.
pub open spec fn supporter_node_id(a: SupportAssignmentLog, phase: usize) -> Seq<char> {
    "supporter_"@ + decimal(a.supporter_squad as nat) + "_phase_"@ + decimal(phase as nat)
}

/// The id of the node of an assignment.
pub open spec fn assignment_node_id(a: SupportAssignmentLog) -> Seq<char> {
    "assignment_"@ + decimal(a.requester_squad as nat) + "_"@ + decimal(a.frame as nat)
}

/// The id of the node of a supporting squad's move.
pub open spec fn movement_node_id(a: SupportAssignmentLog) -> Seq<char> {
    "movement_"@ + decimal(a.supporter_squad as nat) + "_"@ + decimal(a.frame as nat)
}

/// The id of the node of a supporting squad's covering fire.
pub open spec fn fire_node_id(a: SupportAssignmentLog) -> Seq<char> {
    "engagement_"@ + decimal(a.supporter_squad as nat) + "_"@ + decimal(a.frame as nat)
}

/// The four nodes of the `i`-th assignment: supporting squad, assignment,
/// move and covering fire, placed in the supporting squad's column.
pub open spec fn assignment_nodes(
    a: SupportAssignmentLog,
    i: int,
    sides: Map<usize, Side>,
    phase: usize,
) -> Seq<NodeView> {
    let side = camp_of_squad(sides, a.supporter_squad);
    let x = team_x(side);
    let y = 500 + 120 * i;
    seq![
        text_node(
            supporter_node_id(a, phase),
            "🔄 분대 "@ + decimal(a.supporter_squad as nat) + " (지원군)\n상태: "@ + a.status@,
            x - 150,
            y,
            150,
            70,
            node_color_text(Some(side)),
        ),
        text_node(
            assignment_node_id(a),
            "📋 지원 할당\n"@ + decimal(a.supporter_squad as nat) + " → "@ + decimal(
                a.requester_squad as nat,
            ) + "\n프레임: "@ + decimal(a.frame as nat),
            x + 30,
            y,
            180,
            80,
            "2ecc71"@,
        ),
        text_node(
            movement_node_id(a),
            "🏃 기동\n목표: "@ + a.safe_position_text@,
            x + 240,
            y - 40,
            160,
            60,
            "9b59b6"@,
        ),
        text_node(
            fire_node_id(a),
            "💥 제압 사격 개시\n목표: 적 위협 요소"@,
            x + 430,
            y - 40,
            160,
            60,
            "e74c3c"@,
        ),
    ]
}

/// The edges of an assignment: from the first request of the supported
/// squad (if it made one), from the supporting squad, then on to the move
/// and the covering fire.
pub open spec fn assignment_links(
    a: SupportAssignmentLog,
    rs: Seq<SupportRequestLog>,
    phase: usize,
) -> Seq<EdgeLink> {
    (match first_request_of(rs, a.requester_squad) {
        Some(r) => seq![link(request_node_id(r), assignment_node_id(a), Some("할당됨"@), true)],
        None => Seq::empty(),
    }) + seq![
        link(supporter_node_id(a, phase), assignment_node_id(a), Some("할당 대상"@), true),
        link(assignment_node_id(a), movement_node_id(a), Some("기동 시작"@), true),
        link(movement_node_id(a), fire_node_id(a), Some("사격"@), true),
    ]
}

/// The nodes of all assignments.
pub open spec fn all_assignment_nodes(
    as_: Seq<SupportAssignmentLog>,
    sides: Map<usize, Side>,
    phase: usize,
) -> Seq<NodeView>
    decreases as_.len(),
{
    if as_.len() == 0 {
        Seq::empty()
    } else {
        all_assignment_nodes(as_.drop_last(), sides, phase) + assignment_nodes(
            as_.last(),
            as_.len() - 1,
            sides,
            phase,
        )
    }
}

/// The edges of all assignments.
pub open spec fn all_assignment_links(
    as_: Seq<SupportAssignmentLog>,
    rs: Seq<SupportRequestLog>,
    phase: usize,
) -> Seq<EdgeLink>
    decreases as_.len(),
{
    if as_.len() == 0 {
        Seq::empty()
    } else {
        all_assignment_links(as_.drop_last(), rs, phase) + assignment_links(as_.last(), rs, phase)
    }
}

/// The id of the node of a resupply.
pub open spec fn supply_node_id(s: SupportSupplyLog) -> Seq<char> {
    "supply_"@ + decimal(s.squad as nat) + "_"@ + decimal(s.frame as nat)
}

/// The id of the node of a resupply's outcome.
pub open spec fn outcome_node_id(s: SupportSupplyLog) -> Seq<char> {
    "outcome_"@ + decimal(s.squad as nat) + "_"@ + decimal(s.frame as nat)
}

/// The two nodes of the `i`-th resupply: the resupply and its outcome.
pub open spec fn supply_nodes(s: SupportSupplyLog, i: int, sides: Map<usize, Side>) -> Seq<NodeView> {
    let x = team_x(camp_of_squad(sides, s.squad));
    let y = 900 + 120 * i;
    seq![
        text_node(
            supply_node_id(s),
            "📦 병력 보급\n탄약: "@ + decimal(s.ammo_amount as nat) + "발"@,
            x + 240,
            y,
            160,
            70,
            "f39c12"@,
        ),
        text_node(
            outcome_node_id(s),
            "✅ 결과 (위협 완화)\n스트레스 감소: "@ + decimal(s.stress_reduction as nat) + "\n위협도: "@
                + s.threat_before_text@ + " → "@ + s.threat_after_text@ + " (↓"@
                + s.threat_reduction_text@ + ")"@,
            x + 430,
            y - 10,
            220,
            90,
            "3498db"@,
        ),
    ]
}

/// The edges of a resupply: from the squad's first request and from the
/// first assignment made for it (where there are such), then to the outcome.
pub open spec fn supply_links(
    s: SupportSupplyLog,
    rs: Seq<SupportRequestLog>,
    as_: Seq<SupportAssignmentLog>,
) -> Seq<EdgeLink> {
    (match first_request_of(rs, s.squad) {
        Some(r) => seq![link(request_node_id(r), supply_node_id(s), Some("보급 실행"@), true)],
        None => Seq::empty(),
    }) + (match first_assignment_for(as_, s.squad) {
        Some(a) => seq![link(assignment_node_id(a), supply_node_id(s), Some("보급 대기"@), true)],
        None => Seq::empty(),
    }) + seq![link(supply_node_id(s), outcome_node_id(s), Some("상태 안정화"@), true)]
}

/// The nodes of all resupplies.
pub open spec fn all_supply_nodes(ss: Seq<SupportSupplyLog>, sides: Map<usize, Side>) -> Seq<NodeView>
    decreases ss.len(),
{
    if ss.len() == 0 {
        Seq::empty()
    } else {
        all_supply_nodes(ss.drop_last(), sides) + supply_nodes(ss.last(), ss.len() - 1, sides)
    }
}

/// The edges of all resupplies.
pub open spec fn all_supply_links(
    ss: Seq<SupportSupplyLog>,
    rs: Seq<SupportRequestLog>,
    as_: Seq<SupportAssignmentLog>,
) -> Seq<EdgeLink>
    decreases ss.len(),
{
    if ss.len() == 0 {
        Seq::empty()
    } else {
        all_supply_links(ss.drop_last(), rs, as_) + supply_links(ss.last(), rs, as_)
    }
}

/// The camp of a squad, `All` when unknown.
fn camp_in(sides: &HashMap<usize, Side>, squad: usize) -> (side: Side)
    ensures
        side == camp_of_squad(sides@, squad),
{
    match sides.get(&squad) {
        Some(s) => *s,
        None => Side::All,
    }
}

/// The column of a camp on the support flow.
fn team_column(side: Side) -> (x: i128)
    ensures
        x == team_x(side),
{
    match side {
        Side::A => -200,
        Side::B => 200,
        Side::All => 0,
    }
}

/// `prefix` followed by the decimal notation of `n`.
fn tagged(prefix: &str, n: u64) -> (s: String)
    ensures
        s@ == prefix@ + decimal(n as nat),
{
    let mut s = String::new();
    s.append(prefix);
    push_decimal(&mut s, n);
    assert(s@ =~= prefix@ + decimal(n as nat));
    s
}

/// `prefix`, `a`, `middle`, `b` in decimal, one after the other.
fn tagged2(prefix: &str, a: u64, middle: &str, b: u64) -> (s: String)
    ensures
        s@ == prefix@ + decimal(a as nat) + middle@ + decimal(b as nat),
{
    let mut s = String::new();
    s.append(prefix);
    push_decimal(&mut s, a);
    s.append(middle);
    push_decimal(&mut s, b);
    assert(s@ =~= prefix@ + decimal(a as nat) + middle@ + decimal(b as nat));
    s
}

/// A new string holding `t`.
fn owned(t: &str) -> (s: String)
    ensures
        s@ == t@,
{
    let mut s = String::new();
    s.append(t);
    assert(s@ =~= t@);
    s
}

/// Appends a plain text node at absolute coordinates.
fn push_text_node(
    nodes: &mut Vec<CanvasNode>,
    id: String,
    text: String,
    x: i128,
    y: i128,
    width: i128,
    height: i128,
    color: &str,
)
    ensures
        final(nodes)@.len() == old(nodes)@.len() + 1,
        final(nodes)@.drop_last() == old(nodes)@,
        final(nodes)@.last().view() == text_node(id@, text@, x as int, y as int, width as int, height as int, color@),
{
    let ghost id_text = id@;
    let ghost text_text = text@;
    let node = CanvasNode {
        id,
        node_type: owned("text"),
        text,
        text_is_label: false,
        sector: None,
        x,
        y,
        width,
        height,
        color: Some(owned(color)),
        file: None,
        cover_background: false,
    };
    proof {
        reveal_strlit("text");
    }
    nodes.push(node);
    assert(nodes@.drop_last() =~= old(nodes)@);
}

/// Appends an edge; its id follows from its position among the edges.
fn push_edge(
    edges: &mut Vec<CanvasEdge>,
    from_node: String,
    to_node: String,
    label: Option<&str>,
    arrow: bool,
    color: Option<&str>,
    engagement: bool,
)
    ensures
        final(edges)@.len() == old(edges)@.len() + 1,
        final(edges)@.drop_last() == old(edges)@,
        edge_is(
            final(edges)@.last(),
            old(edges)@.len(),
            EdgeLink {
                from_node: from_node@,
                to_node: to_node@,
                label: match label {
                    Some(l) => Some(l@),
                    None => None,
                },
                arrow,
                color: match color {
                    Some(c) => Some(c@),
                    None => None,
                },
                engagement,
            },
        ),
{
    let k = edges.len() as u64;
    let id = if engagement {
        tagged("edge_eng_", k)
    } else {
        tagged("edge_", k)
    };
    let label_text = match label {
        Some(l) => Some(owned(l)),
        None => None,
    };
    let color_text = match color {
        Some(c) => Some(owned(c)),
        None => None,
    };
    edges.push(CanvasEdge { id, from_node, to_node, label: label_text, arrow, color: color_text });
    assert(edges@.drop_last() =~= old(edges)@);
}

/// The first request made by `squad`, by index.
fn find_request(rs: &Vec<SupportRequestLog>, squad: usize) -> (k: Option<usize>)
    ensures
        match k {
            Some(k) => k < rs@.len() && first_request_of(rs@, squad) == Some(rs@[k as int]),
            None => first_request_of(rs@, squad) is None,
        },
{
    let mut i: usize = 0;
    assert(rs@.skip(0) =~= rs@);
    while i < rs.len()
        invariant
            i <= rs@.len(),
            first_request_of(rs@, squad) == first_request_of(rs@.skip(i as int), squad),
        decreases rs@.len() - i,
    {
        if rs[i].requester_squad == squad {
            return Some(i);
        }
        assert(rs@.skip(i as int).drop_first() =~= rs@.skip(i + 1));
        i = i + 1;
    }
    None
}

/// The first assignment made for `squad`, by index.
fn find_assignment(as_: &Vec<SupportAssignmentLog>, squad: usize) -> (k: Option<usize>)
    ensures
        match k {
            Some(k) => k < as_@.len() && first_assignment_for(as_@, squad) == Some(as_@[k as int]),
            None => first_assignment_for(as_@, squad) is None,
        },
{
    let mut i: usize = 0;
    assert(as_@.skip(0) =~= as_@);
    while i < as_.len()
        invariant
            i <= as_@.len(),
            first_assignment_for(as_@, squad) == first_assignment_for(as_@.skip(i as int), squad),
        decreases as_@.len() - i,
    {
        if as_[i].requester_squad == squad {
            return Some(i);
        }
        assert(as_@.skip(i as int).drop_first() =~= as_@.skip(i + 1));
        i = i + 1;
    }
    None
}

/// The id of the node of a request.
fn request_id(r: &SupportRequestLog) -> (id: String)
    ensures
        id@ == request_node_id(*r),
{
    tagged2("request_", r.requester_squad as u64, "_", r.frame)
}

/// The id of the node of an assignment.
fn assignment_id(a: &SupportAssignmentLog) -> (id: String)
    ensures
        id@ == assignment_node_id(*a),
{
    tagged2("assignment_", a.requester_squad as u64, "_", a.frame)
}

/// Appends the nodes and edges of the support flow: the phase and the two
/// camps, then each request, each assignment and each resupply.
fn push_support_flow(
    nodes: &mut Vec<CanvasNode>,
    edges: &mut Vec<CanvasEdge>,
    phase: usize,
    start: u64,
    end: u64,
    rs: &Vec<SupportRequestLog>,
    as_: &Vec<SupportAssignmentLog>,
    ss: &Vec<SupportSupplyLog>,
    sides: &HashMap<usize, Side>,
)
    requires
        old(nodes)@.len() == 0,
        old(edges)@.len() == 0,
    ensures
        nodes_are(
            final(nodes)@,
            opening_nodes(phase, start, end) + all_request_nodes(rs@, sides@, phase)
                + all_assignment_nodes(as_@, sides@, phase) + all_supply_nodes(ss@, sides@),
        ),
        edges_are(
            final(edges)@,
            opening_links(phase) + all_request_links(rs@, sides@, phase) + all_assignment_links(
                as_@,
                rs@,
                phase,
            ) + all_supply_links(ss@, rs@, as_@),
        ),
        final(edges)@.len() <= 2 + 2 * rs@.len() + 4 * as_@.len() + 3 * ss@.len(),
{
    let phase_id = tagged("phase_", phase as u64);
    let mut phase_text = tagged("# Phase ", phase as u64);
    phase_text.append(": 지원-보급 플로우\n(프레임: ");
    push_decimal(&mut phase_text, start);
    phase_text.append(" ~ ");
    push_decimal(&mut phase_text, end);
    phase_text.append(")");
    push_text_node(nodes, phase_id.clone(), phase_text, -400, -200, 300, 120, "3498db");
    push_text_node(nodes, owned("team_a"), owned("🟦 Side A"), -200, -50, 120, 50, "4b8bdf");
    push_text_node(nodes, owned("team_b"), owned("🟥 Side B"), 200, -50, 120, 50, "df4b4b");
    push_edge(edges, phase_id.clone(), owned("team_a"), Some("소속"), false, None, false);
    push_edge(edges, phase_id, owned("team_b"), Some("소속"), false, None, false);
    proof {
        let ns = nodes@;
        let ov = opening_nodes(phase, start, end);
        assert(ns[0].view().text =~= ov[0].text);
        assert(nodes_are(ns, ov));
        assert(edges_are(edges@, opening_links(phase)));
    }
    let ghost base_nodes = opening_nodes(phase, start, end);
    let ghost base_links = opening_links(phase);
    let mut i: usize = 0;
    while i < rs.len()
        invariant
            i <= rs@.len(),
            base_nodes == opening_nodes(phase, start, end),
            base_links == opening_links(phase),
            nodes_are(nodes@, base_nodes + all_request_nodes(rs@.subrange(0, i as int), sides@, phase)),
            edges_are(edges@, base_links + all_request_links(rs@.subrange(0, i as int), sides@, phase)),
            edges@.len() == 2 + 2 * i,
        decreases rs@.len() - i,
    {
        let r = &rs[i];
        let side = camp_in(sides, r.requester_squad);
        let x = team_column(side);
        let y: i128 = 50 + 100 * (i as i128);
        let squad_id = tagged2("squad_", r.requester_squad as u64, "_phase_", phase as u64);
        let mut squad_text = tagged("분대 ", r.requester_squad as u64);
        squad_text.append("\n(");
        squad_text.append(side_label(side));
        squad_text.append("진영)");
        let ghost nodes_before = nodes@;
        let ghost edges_before = edges@;
        push_text_node(nodes, squad_id.clone(), squad_text, x - 150, y, 120, 60, node_color(Some(side)));
        let req_id = request_id(r);
        let mut req_text = owned("🚨 지원 요청\n위협도: ");
        req_text.append(r.threat_level_text.as_str());
        req_text.append("\n긴급도: ");
        req_text.append(r.urgency.as_str());
        req_text.append("\n프레임: ");
        push_decimal(&mut req_text, r.frame);
        push_text_node(nodes, req_id.clone(), req_text, x + 30, y, 150, 80, urgency_color(r.urgency.as_str()));
        push_edge(edges, squad_id.clone(), req_id, Some("요청 생성"), true, None, false);
        let team = if side == Side::B {
            owned("team_b")
        } else {
            owned("team_a")
        };
        push_edge(edges, team, squad_id, Some("소속"), false, None, false);
        proof {
            let next = rs@.subrange(0, i + 1);
            assert(next.drop_last() =~= rs@.subrange(0, i as int));
            assert(next.last() == rs@[i as int]);
            let added = request_nodes(rs@[i as int], i as int, sides@, phase);
            assert(nodes@ =~= nodes_before.push(nodes@[nodes_before.len() as int]).push(nodes@.last()));
            assert(nodes@[nodes_before.len() as int].view().text =~= added[0].text);
            assert(nodes@.last().view().text =~= added[1].text);
            assert(nodes@[nodes_before.len() as int].view() == added[0]);
            assert(nodes@.last().view() == added[1]);
            let want = base_nodes + all_request_nodes(next, sides@, phase);
            assert(want =~= base_nodes + all_request_nodes(rs@.subrange(0, i as int), sides@, phase) + added);
            assert forall|k: int| 0 <= k < nodes@.len() implies #[trigger] nodes@[k].view() == want[k] by {
                if k < nodes_before.len() {
                    assert(nodes@[k] == nodes_before[k]);
                }
            }
            let want_links = base_links + all_request_links(next, sides@, phase);
            let added_links = request_links(rs@[i as int], sides@, phase);
            assert(want_links =~= base_links + all_request_links(rs@.subrange(0, i as int), sides@, phase) + added_links);
            assert(edges@ =~= edges_before.push(edges@[edges_before.len() as int]).push(edges@.last()));
            assert forall|k: int| 0 <= k < edges@.len() implies #[trigger] edge_is(edges@[k], k as nat, want_links[k]) by {
                if k < edges_before.len() {
                    assert(edges@[k] == edges_before[k]);
                }
            }
        }
        i = i + 1;
    }
    assert(rs@.subrange(0, rs@.len() as int) =~= rs@);
    let ghost base_nodes = base_nodes + all_request_nodes(rs@, sides@, phase);
    let ghost base_links = base_links + all_request_links(rs@, sides@, phase);
    let mut i: usize = 0;
    while i < as_.len()
        invariant
            i <= as_@.len(),
            base_nodes == opening_nodes(phase, start, end) + all_request_nodes(rs@, sides@, phase),
            base_links == opening_links(phase) + all_request_links(rs@, sides@, phase),
            nodes_are(nodes@, base_nodes + all_assignment_nodes(as_@.subrange(0, i as int), sides@, phase)),
            edges_are(edges@, base_links + all_assignment_links(as_@.subrange(0, i as int), rs@, phase)),
            edges@.len() <= 2 + 2 * rs@.len() + 4 * i,
        decreases as_@.len() - i,
    {
        let a = &as_[i];
        let side = camp_in(sides, a.supporter_squad);
        let x = team_column(side);
        let y: i128 = 500 + 120 * (i as i128);
        let ghost nodes_before = nodes@;
        let ghost edges_before = edges@;
        let supporter_id = tagged2("supporter_", a.supporter_squad as u64, "_phase_", phase as u64);
        let mut supporter_text = tagged("🔄 분대 ", a.supporter_squad as u64);
        supporter_text.append(" (지원군)\n상태: ");
        supporter_text.append(a.status.as_str());
        push_text_node(nodes, supporter_id.clone(), supporter_text, x - 150, y, 150, 70, node_color(Some(side)));
        let assign_id = assignment_id(a);
        let mut assign_text = tagged("📋 지원 할당\n", a.supporter_squad as u64);
        assign_text.append(" → ");
        push_decimal(&mut assign_text, a.requester_squad as u64);
        assign_text.append("\n프레임: ");
        push_decimal(&mut assign_text, a.frame);
        push_text_node(nodes, assign_id.clone(), assign_text, x + 30, y, 180, 80, "2ecc71");
        let move_id = tagged2("movement_", a.supporter_squad as u64, "_", a.frame);
        let mut move_text = owned("🏃 기동\n목표: ");
        move_text.append(a.safe_position_text.as_str());
        push_text_node(nodes, move_id.clone(), move_text, x + 240, y - 40, 160, 60, "9b59b6");
        let fire_id = tagged2("engagement_", a.supporter_squad as u64, "_", a.frame);
        push_text_node(nodes, fire_id.clone(), owned("💥 제압 사격 개시\n목표: 적 위협 요소"), x + 430, y - 40, 160, 60, "e74c3c");
        let ghost edges_mid = edges@;
        match find_request(rs, a.requester_squad) {
            Some(k) => {
                push_edge(edges, request_id(&rs[k]), assign_id.clone(), Some("할당됨"), true, None, false);
            },
            None => {},
        }
        let ghost edges_mid2 = edges@;
        push_edge(edges, supporter_id, assign_id.clone(), Some("할당 대상"), true, None, false);
        push_edge(edges, assign_id, move_id.clone(), Some("기동 시작"), true, None, false);
        push_edge(edges, move_id, fire_id, Some("사격"), true, None, false);
        proof {
            let next = as_@.subrange(0, i + 1);
            assert(next.drop_last() =~= as_@.subrange(0, i as int));
            assert(next.last() == as_@[i as int]);
            let added = assignment_nodes(as_@[i as int], i as int, sides@, phase);
            let nb = nodes_before.len() as int;
            assert(nodes@.len() == nb + 4);
            assert(nodes@[nb].view().text =~= added[0].text);
            assert(nodes@[nb + 1].view().text =~= added[1].text);
            assert(nodes@[nb + 2].view().text =~= added[2].text);
            assert(nodes@[nb + 3].view().text =~= added[3].text);
            let want = base_nodes + all_assignment_nodes(next, sides@, phase);
            assert(want =~= base_nodes + all_assignment_nodes(as_@.subrange(0, i as int), sides@, phase) + added);
            assert forall|k: int| 0 <= k < nodes@.len() implies #[trigger] nodes@[k].view() == want[k] by {
                if k < nb {
                    assert(nodes@[k] == nodes_before[k]);
                }
            }
            let added_links = assignment_links(as_@[i as int], rs@, phase);
            let want_links = base_links + all_assignment_links(next, rs@, phase);
            assert(want_links =~= base_links + all_assignment_links(as_@.subrange(0, i as int), rs@, phase) + added_links);
            let eb = edges_before.len() as int;
            assert forall|k: int| 0 <= k < edges@.len() implies #[trigger] edge_is(edges@[k], k as nat, want_links[k]) by {
                if k < eb {
                    assert(edges@[k] == edges_before[k]);
                } else if k < edges_mid2.len() {
                    assert(edges@[k] == edges_mid2[k]);
                }
            }
        }
        i = i + 1;
    }
    assert(as_@.subrange(0, as_@.len() as int) =~= as_@);
    let ghost base_nodes = base_nodes + all_assignment_nodes(as_@, sides@, phase);
    let ghost base_links = base_links + all_assignment_links(as_@, rs@, phase);
    let mut i: usize = 0;
    while i < ss.len()
        invariant
            i <= ss@.len(),
            base_nodes == opening_nodes(phase, start, end) + all_request_nodes(rs@, sides@, phase)
                + all_assignment_nodes(as_@, sides@, phase),
            base_links == opening_links(phase) + all_request_links(rs@, sides@, phase)
                + all_assignment_links(as_@, rs@, phase),
            nodes_are(nodes@, base_nodes + all_supply_nodes(ss@.subrange(0, i as int), sides@)),
            edges_are(edges@, base_links + all_supply_links(ss@.subrange(0, i as int), rs@, as_@)),
            edges@.len() <= 2 + 2 * rs@.len() + 4 * as_@.len() + 3 * i,
        decreases ss@.len() - i,
    {
        let s = &ss[i];
        let side = camp_in(sides, s.squad);
        let x = team_column(side);
        let y: i128 = 900 + 120 * (i as i128);
        let ghost nodes_before = nodes@;
        let ghost edges_before = edges@;
        let supply_id = tagged2("supply_", s.squad as u64, "_", s.frame);
        let mut supply_text = tagged("📦 병력 보급\n탄약: ", s.ammo_amount as u64);
        supply_text.append("발");
        push_text_node(nodes, supply_id.clone(), supply_text, x + 240, y, 160, 70, "f39c12");
        let outcome_id = tagged2("outcome_", s.squad as u64, "_", s.frame);
        let mut outcome_text = tagged("✅ 결과 (위협 완화)\n스트레스 감소: ", s.stress_reduction as u64);
        outcome_text.append("\n위협도: ");
        outcome_text.append(s.threat_before_text.as_str());
        outcome_text.append(" → ");
        outcome_text.append(s.threat_after_text.as_str());
        outcome_text.append(" (↓");
        outcome_text.append(s.threat_reduction_text.as_str());
        outcome_text.append(")");
        push_text_node(nodes, outcome_id.clone(), outcome_text, x + 430, y - 10, 220, 90, "3498db");
        match find_request(rs, s.squad) {
            Some(k) => {
                push_edge(edges, request_id(&rs[k]), supply_id.clone(), Some("보급 실행"), true, None, false);
            },
            None => {},
        }
        let ghost edges_mid = edges@;
        match find_assignment(as_, s.squad) {
            Some(k) => {
                push_edge(edges, assignment_id(&as_[k]), supply_id.clone(), Some("보급 대기"), true, None, false);
            },
            None => {},
        }
        let ghost edges_mid2 = edges@;
        push_edge(edges, supply_id, outcome_id, Some("상태 안정화"), true, None, false);
        proof {
            let next = ss@.subrange(0, i + 1);
            assert(next.drop_last() =~= ss@.subrange(0, i as int));
            assert(next.last() == ss@[i as int]);
            let added = supply_nodes(ss@[i as int], i as int, sides@);
            let nb = nodes_before.len() as int;
            assert(nodes@[nb].view().text =~= added[0].text);
            assert(nodes@[nb + 1].view().text =~= added[1].text);
            let want = base_nodes + all_supply_nodes(next, sides@);
            assert(want =~= base_nodes + all_supply_nodes(ss@.subrange(0, i as int), sides@) + added);
            assert forall|k: int| 0 <= k < nodes@.len() implies #[trigger] nodes@[k].view() == want[k] by {
                if k < nb {
                    assert(nodes@[k] == nodes_before[k]);
                }
            }
            let added_links = supply_links(ss@[i as int], rs@, as_@);
            let want_links = base_links + all_supply_links(next, rs@, as_@);
            assert(want_links =~= base_links + all_supply_links(ss@.subrange(0, i as int), rs@, as_@) + added_links);
            let eb = edges_before.len() as int;
            assert forall|k: int| 0 <= k < edges@.len() implies #[trigger] edge_is(edges@[k], k as nat, want_links[k]) by {
                if k < eb {
                    assert(edges@[k] == edges_before[k]);
                } else if k < edges_mid.len() {
                    assert(edges@[k] == edges_mid[k]);
                } else if k < edges_mid2.len() {
                    assert(edges@[k] == edges_mid2[k]);
                }
            }
        }
        i = i + 1;
    }
    assert(ss@.subrange(0, ss@.len() as int) =~= ss@);
}

/// The sectors events happened in, each once, in order of first appearance.
pub open spec fn sector_order(evs: Seq<CanvasEventLog>) -> Seq<Seq<char>>
    decreases evs.len(),
{
    if evs.len() == 0 {
        Seq::empty()
    } else {
        let rest = sector_order(evs.drop_last());
        if rest.contains(evs.last().sector@) {
            rest
        } else {
            rest.push(evs.last().sector@)
        }
    }
}

/// The events that happened in `sector`, in their order.
pub open spec fn in_sector(evs: Seq<CanvasEventLog>, sector: Seq<char>) -> Seq<CanvasEventLog>
    decreases evs.len(),
{
    if evs.len() == 0 {
        Seq::empty()
    } else {
        let rest = in_sector(evs.drop_last(), sector);
        if evs.last().sector@ == sector {
            rest.push(evs.last())
        } else {
            rest
        }
    }
}

/// `e` put into `sorted` after every event not later than it.
pub open spec fn insert_by_frame(sorted: Seq<CanvasEventLog>, e: CanvasEventLog) -> Seq<CanvasEventLog>
    decreases sorted.len(),
{
    if sorted.len() == 0 {
        seq![e]
    } else if sorted.last().frame <= e.frame {
        sorted.push(e)
    } else {
        insert_by_frame(sorted.drop_last(), e).push(sorted.last())
    }
}

/// The events sorted by frame, events of one frame keeping their order.
pub open spec fn sort_by_frame(s: Seq<CanvasEventLog>) -> Seq<CanvasEventLog>
    decreases s.len(),
{
    if s.len() == 0 {
        s
    } else {
        insert_by_frame(sort_by_frame(s.drop_last()), s.last())
    }
}

/// The events of the given sectors, sector after sector, each sector's
/// events sorted by frame: the order in which the battle map is drawn.
pub open spec fn drawing_order(evs: Seq<CanvasEventLog>, secs: Seq<Seq<char>>) -> Seq<CanvasEventLog>
    decreases secs.len(),
{
    if secs.len() == 0 {
        Seq::empty()
    } else {
        drawing_order(evs, secs.drop_last()) + sort_by_frame(in_sector(evs, secs.last()))
    }
}

/// How many events of camp A a sequence holds.
pub open spec fn count_side_a(s: Seq<CanvasEventLog>) -> nat
    decreases s.len(),
{
    if s.len() == 0 {
        0
    } else {
        count_side_a(s.drop_last()) + if s.last().side == Side::A {
            1nat
        } else {
            0nat
        }
    }
}

/// The id of an event's node.
pub open spec fn event_node_id(e: CanvasEventLog) -> Seq<char> {
    "ev_"@ + decimal(e.squad_id as nat) + "_"@ + decimal(e.frame as nat) + "_"@ + event_kind_text(
        e.event_type,
    )
}

/// The colour of a camp's timeline.
pub open spec fn camp_color_text(is_a: bool) -> Seq<char> {
    if is_a {
        "4b8bdf"@
    } else {
        "df4b4b"@
    }
}

/// The colour of an event's node.
pub open spec fn event_color_text(e: CanvasEventLog) -> Seq<char> {
    match e.event_type {
        EventKind::Engagement => "e74c3c"@,
        EventKind::Death => "000000"@,
        EventKind::Movement => camp_color_text(e.side == Side::A),
    }
}

/// The node of an event, `offset` below the top of its camp's column in
/// its sector (camp A on the left, any other camp on the right).
pub open spec fn event_node(e: CanvasEventLog, offset: int) -> NodeView {
    NodeView {
        id: event_node_id(e),
        node_type: "text"@,
        text: "**[Frame "@ + decimal(e.frame as nat) + "] 분대 "@ + decimal(e.squad_id as nat) + "**\n"@
            + e.desc@,
        text_is_label: false,
        sector: Some(e.sector@),
        x: if e.side == Side::A {
            50
        } else {
            650
        },
        y: offset,
        width: 250,
        height: 100,
        color: Some(event_color_text(e)),
        file: None,
        cover_background: false,
    }
}

/// The nodes of a sector's events, sorted by frame, each camp's events
/// stacked 150 apart.
pub open spec fn sector_event_nodes(s: Seq<CanvasEventLog>) -> Seq<NodeView>
    decreases s.len(),
{
    if s.len() == 0 {
        Seq::empty()
    } else {
        let before = s.drop_last();
        let a_before = count_side_a(before) as int;
        let offset = if s.last().side == Side::A {
            150 * a_before
        } else {
            150 * (before.len() - a_before)
        };
        sector_event_nodes(before).push(event_node(s.last(), offset))
    }
}

/// The frame around a sector's events on the battle map.
pub open spec fn group_node(sector: Seq<char>, count: nat) -> NodeView {
    NodeView {
        id: "group_"@ + sector,
        node_type: "group"@,
        text: "Sector "@ + sector,
        text_is_label: true,
        sector: Some(sector),
        x: -100,
        y: -100,
        width: 1200,
        height: 100 + if count * 120 >= 200 {
            (count * 120) as int
        } else {
            200
        },
        color: Some("888888"@),
        file: None,
        cover_background: true,
    }
}

/// The nodes of the battle map, sector after sector.
pub open spec fn map_nodes(evs: Seq<CanvasEventLog>, secs: Seq<Seq<char>>) -> Seq<NodeView>
    decreases secs.len(),
{
    if secs.len() == 0 {
        Seq::empty()
    } else {
        let sec = secs.last();
        let here = in_sector(evs, sec);
        map_nodes(evs, secs.drop_last()) + seq![group_node(sec, here.len())] + sector_event_nodes(
            sort_by_frame(here),
        )
    }
}

/// The latest drawn event of `squad`, if any.
pub open spec fn last_of_squad(p: Seq<CanvasEventLog>, squad: usize) -> Option<CanvasEventLog>
    decreases p.len(),
{
    if p.len() == 0 {
        None
    } else if p.last().squad_id == squad {
        Some(p.last())
    } else {
        last_of_squad(p.drop_last(), squad)
    }
}

/// The edges that chain each squad's events in drawing order.
pub open spec fn timeline_links(p: Seq<CanvasEventLog>) -> Seq<EdgeLink>
    decreases p.len(),
{
    if p.len() == 0 {
        Seq::empty()
    } else {
        let e = p.last();
        timeline_links(p.drop_last()) + match last_of_squad(p.drop_last(), e.squad_id) {
            Some(q) => seq![
                EdgeLink {
                    from_node: event_node_id(q),
                    to_node: event_node_id(e),
                    label: None,
                    arrow: true,
                    color: Some(camp_color_text(e.side == Side::A)),
                    engagement: false,
                },
            ],
            None => Seq::empty(),
        }
    }
}

/// The edges from each engagement to the last drawn event of its target.
pub open spec fn engagement_links(evs: Seq<CanvasEventLog>, p: Seq<CanvasEventLog>) -> Seq<EdgeLink>
    decreases evs.len(),
{
    if evs.len() == 0 {
        Seq::empty()
    } else {
        let e = evs.last();
        engagement_links(evs.drop_last(), p) + if e.event_type == EventKind::Engagement
            && e.target_squad is Some && last_of_squad(p, e.target_squad->0) is Some {
            seq![
                EdgeLink {
                    from_node: event_node_id(e),
                    to_node: event_node_id(last_of_squad(p, e.target_squad->0)->0),
                    label: Some("교전"@),
                    arrow: true,
                    color: Some("e74c3c"@),
                    engagement: true,
                },
            ]
        } else {
            Seq::empty()
        }
    }
}

/// The events at the given indices.
pub open spec fn picked(evs: Seq<CanvasEventLog>, idx: Seq<usize>) -> Seq<CanvasEventLog> {
    idx.map_values(|k: usize| evs[k as int])
}

/// Whether every index points into `evs`.
pub open spec fn indices_in(idx: Seq<usize>, n: nat) -> bool {
    forall|k: int| 0 <= k < idx.len() ==> #[trigger] idx[k] < n
}

/// The distinct sectors of the events, in order of first appearance.
fn sectors_of(evs: &Vec<CanvasEventLog>) -> (secs: Vec<String>)
    ensures
        views(secs@) == sector_order(evs@),
{
    let mut secs: Vec<String> = Vec::new();
    let mut i: usize = 0;
    while i < evs.len()
        invariant
            i <= evs@.len(),
            views(secs@) == sector_order(evs@.subrange(0, i as int)),
        decreases evs@.len() - i,
    {
        let sec = evs[i].sector.as_str();
        let mut found = false;
        let mut j: usize = 0;
        while j < secs.len()
            invariant
                j <= secs@.len(),
                found == exists|k: int| 0 <= k < j && secs@[k]@ == sec@,
            decreases secs@.len() - j,
        {
            if same_text(secs[j].as_str(), sec) {
                found = true;
            }
            j = j + 1;
        }
        proof {
            let next = evs@.subrange(0, i + 1);
            assert(next.drop_last() =~= evs@.subrange(0, i as int));
            assert(next.last() == evs@[i as int]);
            let prev = views(secs@);
            if found {
                let k = choose|k: int| 0 <= k < j && secs@[k]@ == sec@;
                assert(prev[k] == sec@);
                assert(prev.contains(sec@));
            } else {
                assert forall|k: int| 0 <= k < prev.len() implies prev[k] != sec@ by {
                    assert(prev[k] == secs@[k]@);
                }
            }
        }
        if !found {
            secs.push(evs[i].sector.clone());
        }
        proof {
            let next = evs@.subrange(0, i + 1);
            assert(views(secs@) =~= sector_order(next));
        }
        i = i + 1;
    }
    assert(evs@.subrange(0, evs@.len() as int) =~= evs@);
    secs
}

/// The indices of the events that happened in `sector`, in order.
fn indices_in_sector(evs: &Vec<CanvasEventLog>, sector: &str) -> (idx: Vec<usize>)
    ensures
        indices_in(idx@, evs@.len()),
        picked(evs@, idx@) == in_sector(evs@, sector@),
{
    let mut idx: Vec<usize> = Vec::new();
    let mut i: usize = 0;
    while i < evs.len()
        invariant
            i <= evs@.len(),
            indices_in(idx@, evs@.len()),
            picked(evs@, idx@) == in_sector(evs@.subrange(0, i as int), sector@),
        decreases evs@.len() - i,
    {
        let ghost prev = idx@;
        if same_text(evs[i].sector.as_str(), sector) {
            idx.push(i);
        }
        proof {
            let next = evs@.subrange(0, i + 1);
            assert(next.drop_last() =~= evs@.subrange(0, i as int));
            assert(next.last() == evs@[i as int]);
            assert(picked(evs@, idx@) =~= in_sector(next, sector@));
        }
        i = i + 1;
    }
    assert(evs@.subrange(0, evs@.len() as int) =~= evs@);
    idx
}

/// Where `insert_by_frame` puts `e`: after the last event not later than it.
proof fn lemma_insert_by_frame_position(s: Seq<CanvasEventLog>, e: CanvasEventLog, p: int)
    requires
        0 <= p <= s.len(),
        forall|k: int| p <= k < s.len() ==> #[trigger] s[k].frame > e.frame,
        p > 0 ==> s[p - 1].frame <= e.frame,
    ensures
        insert_by_frame(s, e) == s.insert(p, e),
    decreases s.len(),
{
    if s.len() == 0 {
        assert(insert_by_frame(s, e) =~= s.insert(p, e));
    } else if p == s.len() {
        assert(insert_by_frame(s, e) =~= s.insert(p, e));
    } else {
        let t = s.drop_last();
        assert forall|k: int| p <= k < t.len() implies #[trigger] t[k].frame > e.frame by {
            assert(t[k] == s[k]);
        }
        lemma_insert_by_frame_position(t, e, p);
        assert(insert_by_frame(s, e) =~= s.insert(p, e));
    }
}

/// The indices sorted by the frames of their events, stably.
fn sort_indices_by_frame(evs: &Vec<CanvasEventLog>, idx: &Vec<usize>) -> (sorted: Vec<usize>)
    requires
        indices_in(idx@, evs@.len()),
    ensures
        indices_in(sorted@, evs@.len()),
        sorted@.len() == idx@.len(),
        picked(evs@, sorted@) == sort_by_frame(picked(evs@, idx@)),
{
    let mut sorted: Vec<usize> = Vec::new();
    let mut i: usize = 0;
    while i < idx.len()
        invariant
            i <= idx@.len(),
            indices_in(idx@, evs@.len()),
            indices_in(sorted@, evs@.len()),
            sorted@.len() == i,
            picked(evs@, sorted@) == sort_by_frame(picked(evs@, idx@.subrange(0, i as int))),
        decreases idx@.len() - i,
    {
        let k = idx[i];
        let frame = evs[k].frame;
        let mut p: usize = sorted.len();
        while p > 0 && evs[sorted[p - 1]].frame > frame
            invariant
                p <= sorted@.len(),
                indices_in(sorted@, evs@.len()),
                forall|q: int| p <= q < sorted@.len() ==> #[trigger] picked(evs@, sorted@)[q].frame > frame,
            decreases p,
        {
            p = p - 1;
        }
        let ghost before = picked(evs@, sorted@);
        let ghost old_idx = sorted@;
        proof {
            lemma_insert_by_frame_position(before, evs@[k as int], p as int);
        }
        sorted.insert(p, k);
        assert(sorted@ =~= old_idx.insert(p as int, k));
        proof {
            let next = idx@.subrange(0, i + 1);
            assert(picked(evs@, next).drop_last() =~= picked(evs@, idx@.subrange(0, i as int)));
            assert(picked(evs@, next).last() == evs@[k as int]);
            assert(picked(evs@, sorted@) =~= before.insert(p as int, evs@[k as int]));
            assert forall|q: int| 0 <= q < sorted@.len() implies #[trigger] sorted@[q] < evs@.len() by {
                if q < p {
                    assert(sorted@[q] == old_idx[q]);
                } else if q > p {
                    assert(sorted@[q] == old_idx[q - 1]);
                }
            }
        }
        i = i + 1;
    }
    assert(idx@.subrange(0, idx@.len() as int) =~= idx@);
    sorted
}

/// The latest drawn event of `squad` among the events at `done`, by index.
fn last_drawn_of(evs: &Vec<CanvasEventLog>, done: &Vec<usize>, squad: usize) -> (q: Option<usize>)
    requires
        indices_in(done@, evs@.len()),
    ensures
        match q {
            Some(q) => q < evs@.len() && last_of_squad(picked(evs@, done@), squad) == Some(evs@[q as int]),
            None => last_of_squad(picked(evs@, done@), squad) is None,
        },
{
    let mut p: usize = done.len();
    assert(picked(evs@, done@).subrange(0, p as int) =~= picked(evs@, done@));
    while p > 0
        invariant
            p <= done@.len(),
            indices_in(done@, evs@.len()),
            last_of_squad(picked(evs@, done@), squad) == last_of_squad(
                picked(evs@, done@).subrange(0, p as int),
                squad,
            ),
        decreases p,
    {
        let k = done[p - 1];
        proof {
            let pre = picked(evs@, done@).subrange(0, p as int);
            assert(pre.last() == evs@[k as int]);
            assert(pre.drop_last() =~= picked(evs@, done@).subrange(0, p - 1));
        }
        if evs[k].squad_id == squad {
            return Some(k);
        }
        p = p - 1;
    }
    None
}

/// The id of an event's node.
fn event_id(e: &CanvasEventLog) -> (id: String)
    ensures
        id@ == event_node_id(*e),
{
    let mut id = tagged2("ev_", e.squad_id as u64, "_", e.frame);
    id.append("_");
    id.append(event_kind_label(e.event_type));
    assert(id@ =~= event_node_id(*e));
    id
}

/// The colour of a camp's timeline.
fn camp_color(is_a: bool) -> (c: &'static str)
    ensures
        c@ == camp_color_text(is_a),
{
    if is_a {
        "4b8bdf"
    } else {
        "df4b4b"
    }
}

/// Draws one sector of the battle map: its frame, then its events sorted by
/// frame, chaining each event to the latest drawn event of the same squad.
fn push_sector(
    nodes: &mut Vec<CanvasNode>,
    edges: &mut Vec<CanvasEdge>,
    evs: &Vec<CanvasEventLog>,
    sector: &String,
    done: &mut Vec<usize>,
    Ghost(base_links): Ghost<Seq<EdgeLink>>,
)
    requires
        indices_in(old(done)@, evs@.len()),
        edges_are(old(edges)@, base_links + timeline_links(picked(evs@, old(done)@))),
    ensures
        indices_in(final(done)@, evs@.len()),
        picked(evs@, final(done)@) == picked(evs@, old(done)@) + sort_by_frame(in_sector(evs@, sector@)),
        edges_are(final(edges)@, base_links + timeline_links(picked(evs@, final(done)@))),
        final(nodes)@.len() == old(nodes)@.len() + 1 + in_sector(evs@, sector@).len(),
        forall|k: int| 0 <= k < old(nodes)@.len() ==> #[trigger] final(nodes)@[k] == old(nodes)@[k],
        forall|k: int|
            0 <= k < 1 + in_sector(evs@, sector@).len() ==> #[trigger] final(nodes)@[old(nodes)@.len()
                + k].view() == (seq![group_node(sector@, in_sector(evs@, sector@).len())]
                + sector_event_nodes(sort_by_frame(in_sector(evs@, sector@))))[k],
{
    let idx = indices_in_sector(evs, sector.as_str());
    let sorted = sort_indices_by_frame(evs, &idx);
    let n = idx.len();
    proof {
        lemma_sort_by_frame_len(picked(evs@, idx@));
        lemma_in_sector_len(evs@, sector@);
        assert(picked(evs@, idx@).len() == idx@.len());
    }
    let ghost here = in_sector(evs@, sector@);
    let ghost order = sort_by_frame(here);
    let ghost want = seq![group_node(sector@, here.len())] + sector_event_nodes(order);
    let ghost nodes0 = nodes@;
    let ghost done0 = picked(evs@, done@);
    let height: i128 = if (n as i128) * 120 >= 200 {
        100 + (n as i128) * 120
    } else {
        300
    };
    let mut label = owned("Sector ");
    label.append(sector.as_str());
    let mut group_id = owned("group_");
    group_id.append(sector.as_str());
    nodes.push(
        CanvasNode {
            id: group_id,
            node_type: owned("group"),
            text: label,
            text_is_label: true,
            sector: Some(sector.clone()),
            x: -100,
            y: -100,
            width: 1200,
            height,
            color: Some(owned("888888")),
            file: None,
            cover_background: true,
        },
    );
    proof {
        reveal_strlit("group");
        assert(nodes@.last().view() == want[0]);
    }
    let mut a_count: usize = 0;
    let mut i: usize = 0;
    while i < sorted.len()
        invariant
            n == here.len(),
            here == in_sector(evs@, sector@),
            order == sort_by_frame(here),
            picked(evs@, sorted@) == order,
            sorted@.len() == n,
            n <= evs@.len(),
            want == seq![group_node(sector@, here.len())] + sector_event_nodes(order),
            indices_in(sorted@, evs@.len()),
            i <= n,
            a_count == count_side_a(order.subrange(0, i as int)),
            a_count <= i,
            indices_in(done@, evs@.len()),
            picked(evs@, done@) == done0 + order.subrange(0, i as int),
            edges_are(edges@, base_links + timeline_links(picked(evs@, done@))),
            nodes@.len() == nodes0.len() + 1 + i,
            forall|k: int| 0 <= k < nodes0.len() ==> #[trigger] nodes@[k] == nodes0[k],
            forall|k: int| 0 <= k < 1 + i ==> #[trigger] nodes@[nodes0.len() + k].view() == want[k],
        decreases n - i,
    {
        let k = sorted[i];
        let e = &evs[k];
        let is_a = e.side == Side::A;
        let offset: i128 = if is_a {
            150 * (a_count as i128)
        } else {
            150 * ((i - a_count) as i128)
        };
        let mut text = tagged2("**[Frame ", e.frame, "] 분대 ", e.squad_id as u64);
        text.append("**\n");
        text.append(e.desc.as_str());
        let color = match e.event_type {
            EventKind::Engagement => "e74c3c",
            EventKind::Death => "000000",
            EventKind::Movement => camp_color(is_a),
        };
        let ghost nodes_before = nodes@;
        nodes.push(
            CanvasNode {
                id: event_id(e),
                node_type: owned("text"),
                text,
                text_is_label: false,
                sector: Some(e.sector.clone()),
                x: if is_a {
                    50
                } else {
                    650
                },
                y: offset,
                width: 250,
                height: 100,
                color: Some(owned(color)),
                file: None,
                cover_background: false,
            },
        );
        let ghost prefix = order.subrange(0, i as int);
        let ghost prefix1 = order.subrange(0, i + 1);
        proof {
            reveal_strlit("text");
            assert(prefix1.drop_last() =~= prefix);
            assert(prefix1.last() == evs@[k as int]);
            assert(order[i as int] == evs@[k as int]);
            let expect = event_node(evs@[k as int], offset as int);
            assert(nodes@.last().view().text =~= expect.text);
            assert(nodes@.last().view() == expect);
            assert(sector_event_nodes(prefix1) == sector_event_nodes(prefix).push(expect));
            lemma_sector_event_nodes_prefix(order, i as int);
            assert(want[1 + i] == expect);
            assert forall|j: int| 0 <= j < 1 + i + 1 implies #[trigger] nodes@[nodes0.len() + j].view() == want[j] by {
                if j < 1 + i {
                    assert(nodes@[nodes0.len() + j] == nodes_before[nodes0.len() + j]);
                }
            }
            assert forall|j: int| 0 <= j < nodes0.len() implies #[trigger] nodes@[j] == nodes0[j] by {
                assert(nodes@[j] == nodes_before[j]);
            }
        }
        let ghost p_before = picked(evs@, done@);
        let ghost edges_before = edges@;
        match last_drawn_of(evs, done, e.squad_id) {
            Some(q) => {
                push_edge(edges, event_id(&evs[q]), event_id(e), None, true, Some(camp_color(is_a)), false);
            },
            None => {},
        }
        done.push(k);
        proof {
            let p_after = picked(evs@, done@);
            assert(p_after =~= p_before.push(evs@[k as int]));
            assert(p_after.drop_last() =~= p_before);
            let wl = base_links + timeline_links(p_after);
            assert(wl =~= base_links + timeline_links(p_before) + match last_of_squad(p_before, evs@[k as int].squad_id) {
                Some(q) => seq![
                    EdgeLink {
                        from_node: event_node_id(q),
                        to_node: event_node_id(evs@[k as int]),
                        label: None,
                        arrow: true,
                        color: Some(camp_color_text(evs@[k as int].side == Side::A)),
                        engagement: false,
                    },
                ],
                None => Seq::empty(),
            });
            assert forall|j: int| 0 <= j < edges@.len() implies #[trigger] edge_is(edges@[j], j as nat, wl[j]) by {
                if j < edges_before.len() {
                    assert(edges@[j] == edges_before[j]);
                }
            }
            assert(p_after =~= done0 + prefix1);
            assert forall|j: int| 0 <= j < done@.len() implies #[trigger] done@[j] < evs@.len() by {
                if j < done@.len() - 1 {
                    assert(done@[j] == done@.drop_last()[j]);
                }
            }
        }
        if is_a {
            a_count = a_count + 1;
        }
        i = i + 1;
    }
    proof {
        assert(order.subrange(0, n as int) =~= order);
    }
}

/// A sector holds no more events than there are.
proof fn lemma_in_sector_len(evs: Seq<CanvasEventLog>, sector: Seq<char>)
    ensures
        in_sector(evs, sector).len() <= evs.len(),
    decreases evs.len(),
{
    if evs.len() > 0 {
        lemma_in_sector_len(evs.drop_last(), sector);
    }
}

/// Sorting by frame keeps the number of events.
proof fn lemma_sort_by_frame_len(s: Seq<CanvasEventLog>)
    ensures
        sort_by_frame(s).len() == s.len(),
    decreases s.len(),
{
    if s.len() > 0 {
        lemma_sort_by_frame_len(s.drop_last());
        lemma_insert_by_frame_len(sort_by_frame(s.drop_last()), s.last());
    }
}

/// Inserting an event adds one.
proof fn lemma_insert_by_frame_len(s: Seq<CanvasEventLog>, e: CanvasEventLog)
    ensures
        insert_by_frame(s, e).len() == s.len() + 1,
    decreases s.len(),
{
    if s.len() > 0 && s.last().frame > e.frame {
        lemma_insert_by_frame_len(s.drop_last(), e);
    }
}

/// The node of the `i`-th event of a sector follows those of the events before it.
proof fn lemma_sector_event_nodes_prefix(s: Seq<CanvasEventLog>, i: int)
    requires
        0 <= i < s.len(),
    ensures
        sector_event_nodes(s.subrange(0, i + 1)).len() == i + 1,
        forall|j: int| 0 <= j <= i ==> #[trigger] sector_event_nodes(s)[j] == sector_event_nodes(s.subrange(0, i + 1))[j],
        sector_event_nodes(s).len() == s.len(),
    decreases s.len(),
{
    lemma_sector_event_nodes_len(s);
    lemma_sector_event_nodes_len(s.subrange(0, i + 1));
    if i + 1 < s.len() {
        let t = s.drop_last();
        assert(t.subrange(0, i + 1) =~= s.subrange(0, i + 1));
        lemma_sector_event_nodes_prefix(t, i);
        lemma_sector_event_nodes_len(t);
        assert forall|j: int| 0 <= j <= i implies #[trigger] sector_event_nodes(s)[j] == sector_event_nodes(s.subrange(0, i + 1))[j] by {
            assert(sector_event_nodes(s)[j] == sector_event_nodes(t)[j]);
        }
    } else {
        assert(s.subrange(0, i + 1) =~= s);
    }
}

/// One node per event.
proof fn lemma_sector_event_nodes_len(s: Seq<CanvasEventLog>)
    ensures
        sector_event_nodes(s).len() == s.len(),
    decreases s.len(),
{
    if s.len() > 0 {
        lemma_sector_event_nodes_len(s.drop_last());
    }
}

/// The canvas of a phase, if there is anything to draw: the support flow
/// (the phase, the two camps, each request, assignment and resupply) and
/// the battle map (each sector's events, chained per squad, and each
/// engagement linked to its target's latest event).
pub open spec fn phase_canvas_spec(
    phase: usize,
    start: u64,
    end: u64,
    rs: Seq<SupportRequestLog>,
    as_: Seq<SupportAssignmentLog>,
    ss: Seq<SupportSupplyLog>,
    evs: Seq<CanvasEventLog>,
    sides: Map<usize, Side>,
) -> Option<(Seq<NodeView>, Seq<EdgeLink>)> {
    if rs.len() == 0 && as_.len() == 0 && ss.len() == 0 && evs.len() == 0 {
        None
    } else {
        let secs = sector_order(evs);
        let p = drawing_order(evs, secs);
        Some(
            (
                opening_nodes(phase, start, end) + all_request_nodes(rs, sides, phase)
                    + all_assignment_nodes(as_, sides, phase) + all_supply_nodes(ss, sides)
                    + map_nodes(evs, secs),
                opening_links(phase) + all_request_links(rs, sides, phase) + all_assignment_links(
                    as_,
                    rs,
                    phase,
                ) + all_supply_links(ss, rs, as_) + timeline_links(p) + engagement_links(evs, p),
            ),
        )
    }
}

/// Draws the canvas of a phase; see [`phase_canvas_spec`].
pub fn phase_canvas(
    phase: usize,
    start: u64,
    end: u64,
    rs: &Vec<SupportRequestLog>,
    as_: &Vec<SupportAssignmentLog>,
    ss: &Vec<SupportSupplyLog>,
    evs: &Vec<CanvasEventLog>,
    sides: &HashMap<usize, Side>,
) -> (canvas: Option<CanvasGraph>)
    ensures
        match phase_canvas_spec(phase, start, end, rs@, as_@, ss@, evs@, sides@) {
            None => canvas is None,
            Some((nv, links)) => canvas is Some && nodes_are(canvas->0.nodes@, nv) && edges_are(
                canvas->0.edges@,
                links,
            ),
        },
{
    if rs.len() == 0 && as_.len() == 0 && ss.len() == 0 && evs.len() == 0 {
        return None;
    }
    let mut nodes: Vec<CanvasNode> = Vec::new();
    let mut edges: Vec<CanvasEdge> = Vec::new();
    push_support_flow(&mut nodes, &mut edges, phase, start, end, rs, as_, ss, sides);
    let ghost flow_nodes = opening_nodes(phase, start, end) + all_request_nodes(rs@, sides@, phase)
        + all_assignment_nodes(as_@, sides@, phase) + all_supply_nodes(ss@, sides@);
    let ghost flow_links = opening_links(phase) + all_request_links(rs@, sides@, phase)
        + all_assignment_links(as_@, rs@, phase) + all_supply_links(ss@, rs@, as_@);
    let secs = sectors_of(evs);
    let ghost secs_v = views(secs@);
    let mut done: Vec<usize> = Vec::new();
    let mut j: usize = 0;
    proof {
        assert(secs_v.subrange(0, 0) =~= Seq::<Seq<char>>::empty());
        assert(picked(evs@, done@) =~= Seq::<CanvasEventLog>::empty());
        assert(flow_links + timeline_links(Seq::<CanvasEventLog>::empty()) =~= flow_links);
        assert(flow_nodes + map_nodes(evs@, Seq::<Seq<char>>::empty()) =~= flow_nodes);
    }
    while j < secs.len()
        invariant
            secs_v == views(secs@),
            secs_v == sector_order(evs@),
            j <= secs@.len(),
            indices_in(done@, evs@.len()),
            picked(evs@, done@) == drawing_order(evs@, secs_v.subrange(0, j as int)),
            edges_are(edges@, flow_links + timeline_links(picked(evs@, done@))),
            nodes_are(nodes@, flow_nodes + map_nodes(evs@, secs_v.subrange(0, j as int))),
        decreases secs@.len() - j,
    {
        let ghost nodes_before = nodes@;
        push_sector(&mut nodes, &mut edges, evs, &secs[j], &mut done, Ghost(flow_links));
        proof {
            let next = secs_v.subrange(0, j + 1);
            assert(next.drop_last() =~= secs_v.subrange(0, j as int));
            assert(next.last() == secs@[j as int]@);
            let want = flow_nodes + map_nodes(evs@, next);
            let sec = secs@[j as int]@;
            let here = in_sector(evs@, sec);
            let added = seq![group_node(sec, here.len())] + sector_event_nodes(sort_by_frame(here));
            lemma_sector_event_nodes_len(sort_by_frame(here));
            lemma_sort_by_frame_len(here);
            assert(want =~= flow_nodes + map_nodes(evs@, secs_v.subrange(0, j as int)) + added);
            assert forall|k: int| 0 <= k < nodes@.len() implies #[trigger] nodes@[k].view() == want[k] by {
                if k < nodes_before.len() {
                    assert(nodes@[k] == nodes_before[k]);
                } else {
                    let d = k - nodes_before.len();
                    assert(nodes@[nodes_before.len() + d].view() == added[d]);
                }
            }
        }
        j = j + 1;
    }
    assert(secs_v.subrange(0, secs@.len() as int) =~= secs_v);
    let ghost p = picked(evs@, done@);
    let ghost map_links = flow_links + timeline_links(p);
    let mut i: usize = 0;
    while i < evs.len()
        invariant
            p == picked(evs@, done@),
            indices_in(done@, evs@.len()),
            i <= evs@.len(),
            edges_are(edges@, map_links + engagement_links(evs@.subrange(0, i as int), p)),
        decreases evs@.len() - i,
    {
        let e = &evs[i];
        let ghost edges_before = edges@;
        if e.event_type == EventKind::Engagement {
            match e.target_squad {
                Some(target) => {
                    match last_drawn_of(evs, &done, target) {
                        Some(q) => {
                            push_edge(&mut edges, event_id(e), event_id(&evs[q]), Some("교전"), true, Some("e74c3c"), true);
                        },
                        None => {},
                    }
                },
                None => {},
            }
        }
        proof {
            let next = evs@.subrange(0, i + 1);
            assert(next.drop_last() =~= evs@.subrange(0, i as int));
            assert(next.last() == evs@[i as int]);
            let wl = map_links + engagement_links(next, p);
            let ev = evs@[i as int];
            let tail = if ev.event_type == EventKind::Engagement && ev.target_squad is Some
                && last_of_squad(p, ev.target_squad->0) is Some {
                seq![
                    EdgeLink {
                        from_node: event_node_id(ev),
                        to_node: event_node_id(last_of_squad(p, ev.target_squad->0)->0),
                        label: Some("교전"@),
                        arrow: true,
                        color: Some("e74c3c"@),
                        engagement: true,
                    },
                ]
            } else {
                Seq::empty()
            };
            assert(wl =~= map_links + engagement_links(evs@.subrange(0, i as int), p) + tail);
            assert(edges@.len() == edges_before.len() + tail.len());
            assert forall|k: int| 0 <= k < edges@.len() implies #[trigger] edge_is(edges@[k], k as nat, wl[k]) by {
                if k < edges_before.len() {
                    assert(edges@[k] == edges_before[k]);
                }
            }
        }
        i = i + 1;
    }
    assert(evs@.subrange(0, evs@.len() as int) =~= evs@);
    Some(CanvasGraph { nodes, edges })
}

} // verus!
