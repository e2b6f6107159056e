use vstd::prelude::*;

verus! {

/// One instruction addressed to one soldier.
#[derive(Clone, Copy, Debug, PartialEq, Eq, Structural)]
pub enum SoldierDirective {
    /// Set the soldier's order to idle.
    OrderIdle,
    /// Make the soldier idle, crouched.
    BehaviorIdleCrouched,
    /// Order the soldier to move fast along the squad's path, then defend.
    OrderRush,
    /// Make the soldier move fast along the squad's path.
    BehaviorRush,
    /// Drop whatever gesture the soldier is making.
    GestureIdle,
}

/// What a whole squad is told to do.
#[derive(Clone, Copy, Debug, PartialEq, Eq, Structural)]
pub enum SquadDirective {
    /// Stop, crouch and wait.
    StandDown,
    /// Run to a new objective.
    Rush,
}

/// The three instructions each member of a squad receives for a squad
/// directive, in the order they are sent.
pub open spec fn member_directives(member: usize, d: SquadDirective) -> Seq<(usize, SoldierDirective)> {
    match d {
        SquadDirective::StandDown => seq![
            (member, SoldierDirective::OrderIdle),
            (member, SoldierDirective::BehaviorIdleCrouched),
            (member, SoldierDirective::GestureIdle),
        ],
        SquadDirective::Rush => seq![
            (member, SoldierDirective::OrderRush),
            (member, SoldierDirective::BehaviorRush),
            (member, SoldierDirective::GestureIdle),
        ],
    }
}

/// The instructions for every member of a squad, member after member.
pub open spec fn squad_instructions(members: Seq<usize>, d: SquadDirective) -> Seq<(usize, SoldierDirective)>
    decreases members.len(),
{
    if members.len() == 0 {
        Seq::empty()
    } else {
        squad_instructions(members.drop_last(), d) + member_directives(members.last(), d)
    }
}

/// Appends the instructions of a squad directive for each member.
pub fn push_squad_directive(
    out: &mut Vec<(usize, SoldierDirective)>,
    members: &Vec<usize>,
    d: SquadDirective,
)
    ensures
        final(out)@ == old(out)@ + squad_instructions(members@, d),
{
    let mut i: usize = 0;
    while i < members.len()
        invariant
            i <= members@.len(),
            out@ == old(out)@ + squad_instructions(members@.subrange(0, i as int), d),
        decreases members@.len() - i,
    {
        let m = members[i];
        match d {
            SquadDirective::StandDown => {
                out.push((m, SoldierDirective::OrderIdle));
                out.push((m, SoldierDirective::BehaviorIdleCrouched));
            },
            SquadDirective::Rush => {
                out.push((m, SoldierDirective::OrderRush));
                out.push((m, SoldierDirective::BehaviorRush));
            },
        }
        out.push((m, SoldierDirective::GestureIdle));
        proof {
            let next = members@.subrange(0, i + 1);
            assert(next.drop_last() =~= members@.subrange(0, i as int));
            assert(next.last() == m);
            assert(out@ =~= old(out)@ + squad_instructions(next, d));
        }
        i = i + 1;
    }
    assert(members@.subrange(0, members@.len() as int) =~= members@);
}

/// The instructions of a squad directive for each member.
pub fn squad_directive(members: &Vec<usize>, d: SquadDirective) -> (out: Vec<(usize, SoldierDirective)>)
    ensures
        out@ == squad_instructions(members@, d),
{
    let mut out: Vec<(usize, SoldierDirective)> = Vec::new();
    push_squad_directive(&mut out, members, d);
    assert(out@ =~= squad_instructions(members@, d));
    out
}

/// A squad of `n` members receives three instructions per member.
pub proof fn law_three_instructions_per_member(members: Seq<usize>, d: SquadDirective)
    ensures
        squad_instructions(members, d).len() == 3 * members.len(),
    decreases members.len(),
{
    if members.len() > 0 {
        law_three_instructions_per_member(members.drop_last(), d);
    }
}

} // verus!
