use vstd::prelude::*;

use crate::orders::{push_squad_directive, squad_instructions, SoldierDirective, SquadDirective};

verus! {

/// Whether a character has Unicode's White_Space property: the controls
/// U+0009 to U+000D, the space, U+0085, the no-break space, U+1680, the
/// spaces U+2000 to U+200A, the line and paragraph separators, U+202F,
/// U+205F and the ideographic space.
pub open spec fn is_white_space(c: char) -> bool {
    let u = c as u32;
    ||| 0x9 <= u <= 0xd
    ||| u == 0x20
    ||| u == 0x85
    ||| u == 0xa0
    ||| u == 0x1680
    ||| 0x2000 <= u <= 0x200a
    ||| u == 0x2028
    ||| u == 0x2029
    ||| u == 0x202f
    ||| u == 0x205f
    ||| u == 0x3000
}

/// A text without its leading white space.
pub open spec fn without_leading_space(s: Seq<char>) -> Seq<char>
    decreases s.len(),
{
    if s.len() > 0 && is_white_space(s[0]) {
        without_leading_space(s.drop_first())
    } else {
        s
    }
}

/// A text without its trailing white space.
pub open spec fn without_trailing_space(s: Seq<char>) -> Seq<char>
    decreases s.len(),
{
    if s.len() > 0 && is_white_space(s.last()) {
        without_trailing_space(s.drop_last())
    } else {
        s
    }
}

/// A text without its leading and trailing white space.
pub open spec fn trimmed(s: Seq<char>) -> Seq<char> {
    without_trailing_space(without_leading_space(s))
}

/// Calls `str::trim`, which std documents as removing the leading and
/// trailing characters with the Unicode White_Space property: the result
/// is [`trimmed`].
#[verifier::external_body]
fn trim_text(s: &str) -> (t: &str)
    ensures
        t@ == trimmed(s@),
{
    s.trim()
}

/// A text made of white space alone trims to nothing, so a chat box
/// holding only white space shows the presets, not suggestions.
pub proof fn law_blank_text_trims_to_nothing(s: Seq<char>)
    requires
        forall|i: int| 0 <= i < s.len() ==> is_white_space(#[trigger] s[i]),
    ensures
        trimmed(s).len() == 0,
    decreases s.len(),
{
    if s.len() > 0 {
        law_blank_text_trims_to_nothing(s.drop_first());
        assert forall|i: int| 0 <= i < s.drop_first().len() implies is_white_space(
            #[trigger] s.drop_first()[i],
        ) by {
            assert(s.drop_first()[i] == s[i + 1]);
        }
    }
}

/// What the tactics panel asks the game to do.
#[derive(Debug)]
pub enum GuiAction {
    /// Run a chat command.
    SendChatCommand(String),
    /// Select a tactic template, or clear the selection.
    SelectTemplate(Option<String>),
    /// Open or close the chat panel.
    ToggleChatGui,
    /// Drop a queued task.
    RemoveChatTask(u64),
    /// Instruct one soldier.
    Soldier(usize, SoldierDirective),
}

/// A click on the tactics panel.
#[derive(Debug)]
pub enum ChatClick {
    /// A suggested tactic, by its id.
    Suggestion(String),
    /// The "immediate suppressing fire" preset.
    SuppressFirePreset,
    /// The "stealthy flanking" preset.
    SneakFlankPreset,
    /// The cancel button.
    CancelPreset,
    /// The confirmation of the selected template.
    Confirm(String),
}

/// The command a suggested tactic runs: the typed text (trimmed), a space
/// and the tactic's id, or the id alone when nothing is typed.
pub open spec fn suggestion_command_text(chat: Seq<char>, id: Seq<char>) -> Seq<char> {
    if trimmed(chat).len() == 0 {
        id
    } else {
        trimmed(chat) + " "@ + id
    }
}

/// Whether a view is a command action with the given text.
pub open spec fn is_command(a: GuiAction, text: Seq<char>) -> bool {
    a matches GuiAction::SendChatCommand(c) && c@ == text
}

/// Whether a view is the selection of the given template.
pub open spec fn selects(a: GuiAction, template: Option<Seq<char>>) -> bool {
    match (a, template) {
        (GuiAction::SelectTemplate(None), None) => true,
        (GuiAction::SelectTemplate(Some(t)), Some(u)) => t@ == u,
        _ => false,
    }
}

/// Whether the panel lists suggested tactics: it does while something is typed.
pub fn shows_suggestions(chat: &str) -> (shows: bool)
    ensures
        shows == (trimmed(chat@).len() > 0),
{
    !trim_text(chat).is_empty()
}

/// What a click on the tactics panel asks for. A suggestion runs its command
/// (see [`suggestion_command_text`]), clears the selection and closes the
/// panel; a preset selects its template (cancel clears the selection); a
/// confirmation runs the selected template, clears the selection and
/// closes the panel.
pub fn chat_actions(chat: &str, click: ChatClick) -> (actions: Vec<GuiAction>)
    ensures
        match click {
            ChatClick::Suggestion(id) => actions@.len() == 3 && is_command(
                actions@[0],
                suggestion_command_text(chat@, id@),
            ) && selects(actions@[1], None) && actions@[2] matches GuiAction::ToggleChatGui,
            ChatClick::SuppressFirePreset => actions@.len() == 1 && selects(
                actions@[0],
                Some("suppress_fire"@),
            ),
            ChatClick::SneakFlankPreset => actions@.len() == 1 && selects(
                actions@[0],
                Some("sneak_flank"@),
            ),
            ChatClick::CancelPreset => actions@.len() == 1 && selects(actions@[0], None),
            ChatClick::Confirm(selected) => actions@.len() == 3 && is_command(
                actions@[0],
                selected@,
            ) && selects(actions@[1], None) && actions@[2] matches GuiAction::ToggleChatGui,
        },
{
    let mut actions: Vec<GuiAction> = Vec::new();
    match click {
        ChatClick::Suggestion(id) => {
            let current = trim_text(chat);
            let mut command = String::new();
            if current.is_empty() {
                command.append(id.as_str());
            } else {
                command.append(current);
                command.append(" ");
                command.append(id.as_str());
            }
            assert(command@ =~= suggestion_command_text(chat@, id@));
            actions.push(GuiAction::SendChatCommand(command));
            actions.push(GuiAction::SelectTemplate(None));
            actions.push(GuiAction::ToggleChatGui);
        },
        ChatClick::SuppressFirePreset => {
            let mut t = String::new();
            t.append("suppress_fire");
            assert(t@ =~= "suppress_fire"@);
            actions.push(GuiAction::SelectTemplate(Some(t)));
        },
        ChatClick::SneakFlankPreset => {
            let mut t = String::new();
            t.append("sneak_flank");
            assert(t@ =~= "sneak_flank"@);
            actions.push(GuiAction::SelectTemplate(Some(t)));
        },
        ChatClick::CancelPreset => {
            actions.push(GuiAction::SelectTemplate(None));
        },
        ChatClick::Confirm(selected) => {
            actions.push(GuiAction::SendChatCommand(selected));
            actions.push(GuiAction::SelectTemplate(None));
            actions.push(GuiAction::ToggleChatGui);
        },
    }
    actions
}

/// The instructions that stand down every member of the squads of a
/// cancelled task (squads that no longer exist are skipped).
pub open spec fn stand_down_all(squads: Seq<Option<Vec<usize>>>) -> Seq<(usize, SoldierDirective)>
    decreases squads.len(),
{
    if squads.len() == 0 {
        Seq::empty()
    } else {
        stand_down_all(squads.drop_last()) + match squads.last() {
            Some(members) => squad_instructions(members@, SquadDirective::StandDown),
            None => Seq::empty(),
        }
    }
}

/// Whether `actions` are the given soldier instructions, in order.
pub open spec fn soldier_actions_are(actions: Seq<GuiAction>, orders: Seq<(usize, SoldierDirective)>) -> bool {
    &&& actions.len() == orders.len()
    &&& forall|k: int|
        0 <= k < actions.len() ==> (#[trigger] actions[k] matches GuiAction::Soldier(m, d) && m
            == orders[k].0 && d == orders[k].1)
}

/// What cancelling a queued task asks for: drop the task, then stand down
/// every member of each of its squads. `squads` holds, for each squad of
/// the task, its members, or `None` when the squad no longer exists.
pub fn cancel_task_actions(task_id: u64, squads: &Vec<Option<Vec<usize>>>) -> (actions: Vec<GuiAction>)
    ensures
        actions@.len() >= 1,
        actions@[0] matches GuiAction::RemoveChatTask(id) && id == task_id,
        soldier_actions_are(actions@.drop_first(), stand_down_all(squads@)),
{
    let mut orders: Vec<(usize, SoldierDirective)> = Vec::new();
    let mut i: usize = 0;
    while i < squads.len()
        invariant
            i <= squads@.len(),
            orders@ == stand_down_all(squads@.subrange(0, i as int)),
        decreases squads@.len() - i,
    {
        match &squads[i] {
            Some(members) => {
                push_squad_directive(&mut orders, members, SquadDirective::StandDown);
            },
            None => {},
        }
        proof {
            let next = squads@.subrange(0, i + 1);
            assert(next.drop_last() =~= squads@.subrange(0, i as int));
            assert(next.last() == squads@[i as int]);
            assert(orders@ =~= stand_down_all(next));
        }
        i = i + 1;
    }
    assert(squads@.subrange(0, squads@.len() as int) =~= squads@);
    let mut actions: Vec<GuiAction> = Vec::new();
    actions.push(GuiAction::RemoveChatTask(task_id));
    let mut k: usize = 0;
    while k < orders.len()
        invariant
            k <= orders@.len(),
            actions@.len() == k + 1,
            actions@[0] matches GuiAction::RemoveChatTask(id) && id == task_id,
            soldier_actions_are(actions@.drop_first(), orders@.subrange(0, k as int)),
        decreases orders@.len() - k,
    {
        let (m, d) = orders[k];
        let ghost prev_tail = actions@.drop_first();
        actions.push(GuiAction::Soldier(m, d));
        proof {
            let tail = actions@.drop_first();
            assert(tail =~= prev_tail.push(GuiAction::Soldier(m, d)));
            let want = orders@.subrange(0, k + 1);
            assert forall|j: int| 0 <= j < tail.len() implies (#[trigger] tail[j] matches GuiAction::Soldier(m2, d2) && m2 == want[j].0 && d2 == want[j].1) by {
                if j < k {
                    assert(tail[j] == prev_tail[j]);
                    assert(want[j] == orders@.subrange(0, k as int)[j]);
                } else {
                    assert(tail[j] == GuiAction::Soldier(m, d));
                    assert(want[j] == orders@[k as int]);
                }
            }
        }
        k = k + 1;
    }
    assert(orders@.subrange(0, orders@.len() as int) =~= orders@);
    actions
}

} // verus!
